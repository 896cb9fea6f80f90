//! The text of a level description: lines of pieces set apart by white
//! space, each piece the code of a cell, and the name that tells the level.

use crate::game_state::COLS;
use vstd::prelude::*;

verus! {

/// White space: the characters that Unicode marks as White_Space.
pub open spec fn is_space_spec(c: char) -> bool {
    let u = c as u32;
    ||| 0x09 <= u <= 0x0d
    ||| u == 0x20
    ||| u == 0x85
    ||| u == 0xa0
    ||| u == 0x1680
    ||| 0x2000 <= u <= 0x200a
    ||| u == 0x2028
    ||| u == 0x2029
    ||| u == 0x202f
    ||| u == 0x205f
    ||| u == 0x3000
}

/// Whether `c` is white space.
#[verifier::when_used_as_spec(is_space_spec)]
pub fn is_space(c: char) -> (space: bool)
    ensures
        space == is_space_spec(c),
{
    let u = c as u32;
    (0x09 <= u && u <= 0x0d) || u == 0x20 || u == 0x85 || u == 0xa0 || u == 0x1680 || (0x2000 <= u && u
        <= 0x200a) || u == 0x2028 || u == 0x2029 || u == 0x202f || u == 0x205f || u == 0x3000
}

/// Where the run of characters that are no white space and starts at `i` ends.
pub open spec fn run_end(s: Seq<char>, i: int) -> int
    decreases s.len() - i,
{
    if i < 0 || i >= s.len() || is_space(s[i]) {
        i
    } else {
        run_end(s, i + 1)
    }
}

/// The pieces of `s` from `i` on that white space sets apart.
pub open spec fn tokens_from(s: Seq<char>, i: int) -> Seq<Seq<char>>
    decreases s.len() - i,
{
    if i < 0 || i >= s.len() {
        Seq::empty()
    } else if is_space(s[i]) {
        tokens_from(s, i + 1)
    } else {
        proof {
            lemma_run_end_bounds(s, i);
        }
        seq![s.subrange(i, run_end(s, i))] + tokens_from(s, run_end(s, i))
    }
}

/// The pieces of a line that white space sets apart.
pub open spec fn tokens_of(line: Seq<char>) -> Seq<Seq<char>> {
    tokens_from(line, 0)
}

/// The number that the digits `s` spell.
pub open spec fn digits_value(s: Seq<char>) -> int
    decreases s.len(),
{
    if s.len() == 0 {
        0
    } else {
        digits_value(s.drop_last()) * 10 + (s.last() as u32 - 0x30)
    }
}

/// `s` is made of the digits 0 to 9.
pub open spec fn all_digits(s: Seq<char>) -> bool {
    forall|i: int| 0 <= i < s.len() ==> 0x30 <= (#[trigger] s[i]) as u32 <= 0x39
}

/// The piece without the plus sign that may stand before it.
pub open spec fn without_plus(token: Seq<char>) -> Seq<char> {
    if token.len() > 0 && token[0] == '+' {
        token.skip(1)
    } else {
        token
    }
}

/// The code of a cell: the number from 1 to 9 that the piece spells, with
/// or without a plus sign and zeros before it; 0 for every other piece.
pub open spec fn cell_code(token: Seq<char>) -> int {
    let digits = without_plus(token);
    if digits.len() > 0 && all_digits(digits) && 1 <= digits_value(digits) <= 9 {
        digits_value(digits)
    } else {
        0
    }
}

/// The codes of the cells that a line gives: one for each of its pieces,
/// in their order, up to the width of the grid.
pub open spec fn line_cells(line: Seq<char>) -> Seq<u8> {
    Seq::new(
        if tokens_of(line).len() < COLS {
            tokens_of(line).len()
        } else {
            COLS as nat
        },
        |c: int| cell_code(tokens_of(line)[c]) as u8,
    )
}

/// `part` stands somewhere in `text`.
pub open spec fn has_part(text: Seq<char>, part: Seq<char>) -> bool {
    exists|i: int| 0 <= i <= text.len() - part.len() && #[trigger] text.subrange(i, i + part.len()) == part
}

/// The name by which a level from 1 to 9 is told: `level0` and its digit.
pub open spec fn level_tag(level: int) -> Seq<char> {
    seq!['l', 'e', 'v', 'e', 'l', '0', (0x30 + level) as char]
}

/// The level that a name tells: the highest from 9 down to 2 whose tag
/// stands in it, and 1 where none does.
pub open spec fn level_of_name(name: Seq<char>) -> int {
    if has_part(name, level_tag(9)) {
        9
    } else if has_part(name, level_tag(8)) {
        8
    } else if has_part(name, level_tag(7)) {
        7
    } else if has_part(name, level_tag(6)) {
        6
    } else if has_part(name, level_tag(5)) {
        5
    } else if has_part(name, level_tag(4)) {
        4
    } else if has_part(name, level_tag(3)) {
        3
    } else if has_part(name, level_tag(2)) {
        2
    } else {
        1
    }
}

/// The characters of `text`, one by one.
pub fn chars_of(text: &str) -> (chars: Vec<char>)
    ensures
        chars@ == text@,
{
    let mut chars: Vec<char> = Vec::new();
    for c in it: text.chars()
        invariant
            it.seq() == text@,
            chars@ == it.seq().take(it.index() as int),
    {
        chars.push(c);
    }
    chars
}

/// The code of the piece that `chars` holds from `start` up to `end`.
pub fn token_code(chars: &Vec<char>, start: usize, end: usize) -> (code: u8)
    requires
        start <= end <= chars@.len(),
    ensures
        code == cell_code(chars@.subrange(start as int, end as int)),
        code <= 9,
{
    let ghost token = chars@.subrange(start as int, end as int);
    let mut first = start;
    if start < end && chars[start] == '+' {
        first = start + 1;
    }
    let ghost digits = chars@.subrange(first as int, end as int);
    assert(digits =~= without_plus(token));
    if first == end {
        return 0;
    }
    // The value so far, or ten for every value above nine.
    let mut value: u8 = 0;
    let mut i = first;
    while i < end
        invariant
            first <= i <= end <= chars@.len(),
            digits == chars@.subrange(first as int, end as int),
            digits == without_plus(chars@.subrange(start as int, end as int)),
            all_digits(chars@.subrange(first as int, i as int)),
            value <= 10,
            value < 10 ==> value == digits_value(chars@.subrange(first as int, i as int)),
            value == 10 ==> digits_value(chars@.subrange(first as int, i as int)) >= 10,
        decreases end - i,
    {
        let u = chars[i] as u32;
        if u < 0x30 || u > 0x39 {
            assert(digits[i - first] == chars@[i as int]);
            assert(!all_digits(digits));
            return 0;
        }
        proof {
            let before = chars@.subrange(first as int, i as int);
            let now = chars@.subrange(first as int, i + 1);
            assert(now.drop_last() =~= before);
            assert(now.last() == chars@[i as int]);
            assert forall|j: int| 0 <= j < now.len() implies 0x30 <= (#[trigger] now[j]) as u32 <= 0x39 by {
                if j < before.len() {
                    assert(before[j] == now[j]);
                }
            }
            lemma_digits_value_grows(now);
        }
        if value < 10 {
            let next = value * 10 + (u - 0x30) as u8;
            value = if next > 9 {
                10
            } else {
                next
            };
        }
        i += 1;
    }
    assert(chars@.subrange(first as int, end as int) == digits);
    if 1 <= value && value <= 9 {
        value
    } else {
        0
    }
}

/// Reads the codes of the cells that a line gives.
pub fn line_codes(line: &str) -> (codes: Vec<u8>)
    ensures
        codes@ == line_cells(line@),
{
    let chars = chars_of(line);
    let mut codes: Vec<u8> = Vec::new();
    let ghost mut done: Seq<Seq<char>> = Seq::empty();
    let mut i: usize = 0;
    assert(done + tokens_from(chars@, 0) =~= tokens_of(line@));
    while i < chars.len() && codes.len() < COLS
        invariant
            i <= chars@.len(),
            chars@ == line@,
            tokens_of(line@) == done + tokens_from(chars@, i as int),
            codes@.len() == done.len() <= COLS,
            forall|c: int| 0 <= c < codes@.len() ==> (#[trigger] codes@[c]) as int == cell_code(done[c]),
        decreases chars@.len() - i,
    {
        if is_space(chars[i]) {
            i += 1;
        } else {
            let start = i;
            let mut end = i + 1;
            while end < chars.len() && !is_space(chars[end])
                invariant
                    start < end <= chars@.len(),
                    run_end(chars@, start as int) == run_end(chars@, end as int),
                decreases chars@.len() - end,
            {
                end += 1;
            }
            let code = token_code(&chars, start, end);
            proof {
                let token = chars@.subrange(start as int, end as int);
                assert(run_end(chars@, start as int) == end);
                assert(tokens_from(chars@, start as int) == seq![token] + tokens_from(chars@, end as int));
                assert(done + (seq![token] + tokens_from(chars@, end as int)) =~= done.push(token) + tokens_from(
                    chars@,
                    end as int,
                ));
                done = done.push(token);
            }
            codes.push(code);
            i = end;
        }
    }
    proof {
        if i >= chars.len() {
            assert(tokens_from(chars@, i as int) =~= Seq::<Seq<char>>::empty());
            assert(tokens_of(line@) =~= done);
        }
        assert forall|c: int| 0 <= c < codes@.len() implies (#[trigger] codes@[c]) as int == cell_code(
            tokens_of(line@)[c],
        ) by {
            assert(tokens_of(line@)[c] == done[c]);
        }
        assert(codes@ =~= line_cells(line@));
    }
    codes
}

/// Whether `part` stands in `text`.
pub fn contains_part(text: &Vec<char>, part: &Vec<char>) -> (found: bool)
    ensures
        found == has_part(text@, part@),
{
    if part.len() > text.len() {
        return false;
    }
    if part.len() == 0 {
        assert(text@.subrange(0int, 0int + part@.len()) =~= part@);
        return true;
    }
    let last = text.len() - part.len();
    let mut i: usize = 0;
    while i <= last
        invariant
            i <= last + 1,
            part.len() > 0,
            last == text.len() - part.len(),
            forall|j: int| 0 <= j < i ==> #[trigger] text@.subrange(j, j + part@.len()) != part@,
        decreases last + 1 - i,
    {
        let mut k: usize = 0;
        while k < part.len() && text[i + k] == part[k]
            invariant
                k <= part.len(),
                i <= last,
                last == text.len() - part.len(),
                forall|m: int| 0 <= m < k ==> text@[i + m] == #[trigger] part@[m],
            decreases part@.len() - k,
        {
            k += 1;
        }
        if k == part.len() {
            assert(text@.subrange(i as int, i + part@.len()) =~= part@);
            return true;
        }
        assert(text@.subrange(i as int, i + part@.len())[k as int] != part@[k as int]);
        i += 1;
    }
    false
}

/// The level that `name` tells.
pub fn level_of(name: &str) -> (level: i32)
    ensures
        level == level_of_name(name@),
        1 <= level <= 9,
{
    let chars = chars_of(name);
    let digits: [char; 8] = ['2', '3', '4', '5', '6', '7', '8', '9'];
    let mut level: i32 = 9;
    while level >= 2
        invariant
            1 <= level <= 9,
            chars@ == name@,
            digits@ == seq!['2', '3', '4', '5', '6', '7', '8', '9'],
            forall|n: int| level < n <= 9 ==> !has_part(name@, #[trigger] level_tag(n)),
        decreases level,
    {
        let mut tag: Vec<char> = Vec::new();
        tag.push('l');
        tag.push('e');
        tag.push('v');
        tag.push('e');
        tag.push('l');
        tag.push('0');
        tag.push(digits[(level - 2) as usize]);
        assert(tag@ =~= level_tag(level as int));
        if contains_part(&chars, &tag) {
            return level;
        }
        level -= 1;
    }
    level
}

/// A run ends no earlier than it starts, and within the text.
pub proof fn lemma_run_end_bounds(s: Seq<char>, i: int)
    requires
        0 <= i <= s.len(),
    ensures
        i <= run_end(s, i) <= s.len(),
        i < s.len() && !is_space(s[i]) ==> i < run_end(s, i),
    decreases s.len() - i,
{
    if i < s.len() && !is_space(s[i]) {
        lemma_run_end_bounds(s, i + 1);
    }
}

/// The value of digits grows with each digit and is never negative.
pub proof fn lemma_digits_value_grows(s: Seq<char>)
    requires
        all_digits(s),
        s.len() > 0,
    ensures
        0 <= digits_value(s.drop_last()) <= digits_value(s),
        digits_value(s.drop_last()) >= 10 ==> digits_value(s) >= 100,
    decreases s.len(),
{
    let front = s.drop_last();
    assert(0x30 <= s[s.len() - 1] as u32 <= 0x39);
    if front.len() > 0 {
        assert forall|i: int| 0 <= i < front.len() implies 0x30 <= (#[trigger] front[i]) as u32 <= 0x39 by {
            assert(front[i] == s[i]);
        }
        lemma_digits_value_grows(front);
    }
}

} // verus!
