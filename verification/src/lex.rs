//! Taking texts apart.
use crate::text::is_prefix;
use vstd::prelude::*;
use vstd::string::*;

verus! {

/// `String::push` of std: it puts a character at the end of a text.
pub assume_specification[ String::push ](s: &mut String, c: char)
    ensures
        final(s)@ == old(s)@.push(c),
;

/// The text that characters make.
pub fn from_chars(c: &[char]) -> (r: String)
    ensures
        r@ == c@,
{
    let mut s = String::new();
    let mut i: usize = 0;
    assert(c@.take(0) =~= Seq::<char>::empty());
    assert(s@ =~= Seq::<char>::empty());
    while i < c.len()
        invariant
            i <= c@.len(),
            s@ == c@.take(i as int),
        decreases c@.len() - i,
    {
        s.push(c[i]);
        i = i + 1;
        assert(c@.take(i as int) =~= c@.take(i - 1).push(c@[i - 1]));
    }
    assert(c@.take(i as int) =~= c@);
    s
}

/// A stretch of a list of characters.
pub fn slice_of(c: &[char], from: usize, to: usize) -> (r: Vec<char>)
    requires
        from <= to <= c@.len(),
    ensures
        r@ == c@.subrange(from as int, to as int),
{
    let mut out: Vec<char> = Vec::new();
    let mut i: usize = from;
    while i < to
        invariant
            from <= i <= to <= c@.len(),
            out@ == c@.subrange(from as int, i as int),
        decreases to - i,
    {
        out.push(c[i]);
        i = i + 1;
        assert(out@ =~= c@.subrange(from as int, i as int));
    }
    out
}

// ---------------------------------------------------------------------------
// Characters
// ---------------------------------------------------------------------------
/// Whether a character is white space, as Unicode has it.
pub open spec fn is_white(c: char) -> bool {
    let v = c as u32;
    ||| 0x9 <= v <= 0xd
    ||| v == 0x20
    ||| v == 0x85
    ||| v == 0xa0
    ||| v == 0x1680
    ||| 0x2000 <= v <= 0x200a
    ||| v == 0x2028
    ||| v == 0x2029
    ||| v == 0x202f
    ||| v == 0x205f
    ||| v == 0x3000
}

pub fn white(c: char) -> (r: bool)
    ensures
        r == is_white(c),
{
    let v: u32 = c as u32;
    (0x9 <= v && v <= 0xd) || v == 0x20 || v == 0x85 || v == 0xa0 || v == 0x1680 || (0x2000 <= v
        && v <= 0x200a) || v == 0x2028 || v == 0x2029 || v == 0x202f || v == 0x205f || v == 0x3000
}

/// A letter from A to Z in lower case, and any other character as it is.
pub open spec fn lower(c: char) -> char {
    if 'A' <= c <= 'Z' {
        (c as u32 + 32) as char
    } else {
        c
    }
}

/// Whether a character is, in lower case, the given one.
fn lower_is(c: char, l: char) -> (r: bool)
    ensures
        r == (lower(c) == l),
{
    if 'A' <= c && c <= 'Z' {
        let b: u8 = c as u8;
        (b + 32) as char == l
    } else {
        c == l
    }
}

/// Characters in lower case.
pub open spec fn lowered(s: Seq<char>) -> Seq<char> {
    s.map_values(|c: char| lower(c))
}

/// Whether a text begins, in lower case, with the given one.
pub fn starts_with_lower(s: &[char], p: &[char]) -> (r: bool)
    ensures
        r == is_prefix(p@, lowered(s@)),
{
    if p.len() > s.len() {
        return false;
    }
    let mut i: usize = 0;
    while i < p.len()
        invariant
            i <= p@.len() <= s@.len(),
            forall|j: int| 0 <= j < i ==> lower(#[trigger] s@[j]) == p@[j],
        decreases p@.len() - i,
    {
        if !lower_is(s[i], p[i]) {
            assert(lowered(s@).take(p@.len() as int)[i as int] != p@[i as int]);
            return false;
        }
        i = i + 1;
    }
    assert(lowered(s@).take(p@.len() as int) =~= p@);
    true
}

/// Whether a text is, in lower case, the given one.
pub fn equals_lower(s: &[char], p: &[char]) -> (r: bool)
    ensures
        r == (lowered(s@) == p@),
{
    if s.len() != p.len() {
        return false;
    }
    let r = starts_with_lower(s, p);
    proof {
        assert(lowered(s@).take(p@.len() as int) =~= lowered(s@));
    }
    r
}

// ---------------------------------------------------------------------------
// Cutting
// ---------------------------------------------------------------------------
/// The first position of a character, or the length.
pub open spec fn index_of(s: Seq<char>, c: char) -> int
    decreases s.len(),
{
    if s.len() == 0 || s[0] == c {
        0
    } else {
        1 + index_of(s.drop_first(), c)
    }
}

proof fn lemma_index_of(s: Seq<char>, c: char, i: int)
    requires
        0 <= i <= s.len(),
        forall|j: int| 0 <= j < i ==> s[j] != c,
        i == s.len() || s[i] == c,
    ensures
        index_of(s, c) == i,
    decreases s.len(),
{
    if i > 0 {
        let t = s.drop_first();
        assert(s[0] != c);
        assert forall|j: int| 0 <= j < i - 1 implies t[j] != c by {
            assert(t[j] == s[j + 1]);
        }
        lemma_index_of(t, c, i - 1);
    }
}

/// What the first position of a character is.
pub proof fn lemma_index_is_first(s: Seq<char>, c: char)
    ensures
        0 <= index_of(s, c) <= s.len(),
        index_of(s, c) < s.len() ==> s[index_of(s, c)] == c,
        forall|j: int| 0 <= j < index_of(s, c) ==> s[j] != c,
    decreases s.len(),
{
    if s.len() > 0 && s[0] != c {
        let t = s.drop_first();
        lemma_index_is_first(t, c);
        assert forall|j: int| 0 <= j < index_of(s, c) implies s[j] != c by {
            if j > 0 {
                assert(t[j - 1] == s[j]);
            }
        }
        if index_of(s, c) < s.len() {
            assert(t[index_of(t, c)] == s[index_of(s, c)]);
        }
    }
}

/// The first position of a character, or the length.
pub fn find(s: &[char], c: char) -> (r: usize)
    ensures
        r == index_of(s@, c),
        r <= s@.len(),
{
    let mut i: usize = 0;
    while i < s.len()
        invariant
            i <= s@.len(),
            forall|j: int| 0 <= j < i ==> s@[j] != c,
        decreases s@.len() - i,
    {
        if s[i] == c {
            proof {
                lemma_index_of(s@, c, i as int);
            }
            return i;
        }
        i = i + 1;
    }
    proof {
        lemma_index_of(s@, c, i as int);
    }
    i
}

/// What stands before and after the first occurrence of a character.
pub open spec fn cut_at(s: Seq<char>, c: char) -> Option<(Seq<char>, Seq<char>)> {
    let i = index_of(s, c);
    if i < s.len() {
        Some((s.take(i), s.skip(i + 1)))
    } else {
        None
    }
}

/// What stands before and after the first occurrence of a character.
pub fn cut(s: &[char], c: char) -> (r: Option<(Vec<char>, Vec<char>)>)
    ensures
        match r {
            Some((a, b)) => cut_at(s@, c) == Some((a@, b@)),
            None => cut_at(s@, c) is None,
        },
{
    let i: usize = find(s, c);
    if i < s.len() {
        let a = slice_of(s, 0, i);
        let b = slice_of(s, i + 1, s.len());
        assert(a@ =~= s@.take(i as int));
        assert(b@ =~= s@.skip(i + 1));
        Some((a, b))
    } else {
        None
    }
}

/// The pieces between the occurrences of a character.
pub open spec fn split_on(s: Seq<char>, c: char) -> Seq<Seq<char>>
    decreases s.len(),
{
    let i = index_of(s, c);
    if 0 <= i < s.len() {
        seq![s.take(i)] + split_on(s.skip(i + 1), c)
    } else {
        seq![s]
    }
}

/// The texts that lists of characters make.
pub open spec fn texts(s: Seq<Vec<char>>) -> Seq<Seq<char>> {
    s.map_values(|v: Vec<char>| v@)
}

/// The pieces between the occurrences of a character.
pub fn split(s: &[char], c: char) -> (r: Vec<Vec<char>>)
    ensures
        texts(r@) == split_on(s@, c),
        r@.len() > 0,
{
    let mut out: Vec<Vec<char>> = Vec::new();
    let mut rest = slice_of(s, 0, s.len());
    assert(rest@ =~= s@);
    assert(texts(out@) =~= Seq::<Seq<char>>::empty());
    assert(texts(out@) + split_on(rest@, c) =~= split_on(s@, c));
    loop
        invariant
            texts(out@) + split_on(rest@, c) == split_on(s@, c),
        decreases rest@.len(),
    {
        let ghost before = out@;
        let ghost r0 = rest@;
        match cut(rest.as_slice(), c) {
            Some((a, b)) => {
                proof {
                    lemma_index_is_first(r0, c);
                }
                out.push(a);
                assert(texts(out@) =~= texts(before).push(a@));
                rest = b;
                assert(texts(out@) + split_on(rest@, c) =~= texts(before) + (seq![a@] + split_on(
                    rest@,
                    c,
                )));
            },
            None => {
                proof {
                    lemma_index_is_first(r0, c);
                }
                out.push(rest);
                assert(texts(out@) =~= texts(before).push(r0));
                assert(texts(out@) =~= texts(before) + seq![r0]);
                return out;
            },
        }
    }
}

/// A line without the carriage return at its end.
pub open spec fn chomped(s: Seq<char>) -> Seq<char> {
    if s.len() > 0 && s.last() == '\r' {
        s.drop_last()
    } else {
        s
    }
}

/// The lines of a text. A line ends with a line feed, or a carriage return and
/// a line feed; the last one may end with the text.
pub open spec fn lines_of(s: Seq<char>) -> Seq<Seq<char>>
    decreases s.len(),
{
    let i = index_of(s, '\n');
    if s.len() == 0 {
        Seq::empty()
    } else if 0 <= i < s.len() {
        seq![chomped(s.take(i))] + lines_of(s.skip(i + 1))
    } else {
        seq![s]
    }
}

/// The lines of a text.
pub fn lines(s: &[char]) -> (r: Vec<Vec<char>>)
    ensures
        texts(r@) == lines_of(s@),
{
    let mut out: Vec<Vec<char>> = Vec::new();
    let mut rest = slice_of(s, 0, s.len());
    assert(rest@ =~= s@);
    assert(texts(out@) =~= Seq::<Seq<char>>::empty());
    assert(texts(out@) + lines_of(rest@) =~= lines_of(s@));
    while rest.len() > 0
        invariant
            texts(out@) + lines_of(rest@) == lines_of(s@),
        decreases rest@.len(),
    {
        let ghost before = out@;
        let ghost r0 = rest@;
        proof {
            lemma_index_is_first(r0, '\n');
        }
        match cut(rest.as_slice(), '\n') {
            Some((a, b)) => {
                let ghost a0 = a@;
                let mut a = a;
                if a.len() > 0 && a[a.len() - 1] == '\r' {
                    let cr = a.pop();
                    assert(a@ =~= a0.drop_last());
                }
                assert(a@ == chomped(a0));
                out.push(a);
                assert(texts(out@) =~= texts(before).push(chomped(a0)));
                rest = b;
                assert(texts(out@) + lines_of(rest@) =~= texts(before) + (seq![chomped(a0)]
                    + lines_of(rest@)));
            },
            None => {
                out.push(rest);
                assert(texts(out@) =~= texts(before).push(r0));
                rest = Vec::new();
                assert(lines_of(rest@) =~= Seq::<Seq<char>>::empty());
                assert(texts(out@) + lines_of(rest@) =~= texts(before) + seq![r0]);
            },
        }
    }
    assert(lines_of(rest@) =~= Seq::<Seq<char>>::empty());
    assert(texts(out@) =~= texts(out@) + lines_of(rest@));
    out
}

/// A text without the white space at its beginning.
pub open spec fn trimmed_start(s: Seq<char>) -> Seq<char>
    decreases s.len(),
{
    if s.len() > 0 && is_white(s[0]) {
        trimmed_start(s.drop_first())
    } else {
        s
    }
}

/// A text without the white space at its end.
pub open spec fn trimmed_end(s: Seq<char>) -> Seq<char>
    decreases s.len(),
{
    if s.len() > 0 && is_white(s.last()) {
        trimmed_end(s.drop_last())
    } else {
        s
    }
}

/// A text without the white space around it.
pub open spec fn trimmed(s: Seq<char>) -> Seq<char> {
    trimmed_end(trimmed_start(s))
}

fn skip_white(s: &[char]) -> (r: usize)
    ensures
        r <= s@.len(),
        s@.skip(r as int) == trimmed_start(s@),
{
    let mut i: usize = 0;
    assert(s@.skip(0) =~= s@);
    while i < s.len() && white(s[i])
        invariant
            i <= s@.len(),
            trimmed_start(s@.skip(i as int)) == trimmed_start(s@),
        decreases s@.len() - i,
    {
        assert(s@.skip(i as int).drop_first() =~= s@.skip(i + 1));
        i = i + 1;
    }
    i
}

/// A text without the white space around it.
pub fn trim(s: &[char]) -> (r: Vec<char>)
    ensures
        r@ == trimmed(s@),
{
    let i: usize = skip_white(s);
    let mut out = slice_of(s, i, s.len());
    assert(out@ =~= s@.skip(i as int));
    while out.len() > 0 && white(out[out.len() - 1])
        invariant
            trimmed_end(out@) == trimmed(s@),
        decreases out@.len(),
    {
        let ghost before = out@;
        let last = out.pop();
        assert(out@ =~= before.drop_last());
    }
    out
}

/// The characters before the first white space.
pub open spec fn word_at_start(s: Seq<char>) -> Seq<char>
    decreases s.len(),
{
    if s.len() == 0 || is_white(s[0]) {
        Seq::empty()
    } else {
        seq![s[0]] + word_at_start(s.drop_first())
    }
}

/// The first word of a text; empty where there is none.
pub open spec fn first_word_of(s: Seq<char>) -> Seq<char> {
    word_at_start(trimmed_start(s))
}

/// The first word of a text; empty where there is none.
pub fn first_word(s: &[char]) -> (r: Vec<char>)
    ensures
        r@ == first_word_of(s@),
{
    let from: usize = skip_white(s);
    let mut out: Vec<char> = Vec::new();
    let mut i: usize = from;
    assert(out@ + word_at_start(s@.skip(i as int)) =~= first_word_of(s@));
    while i < s.len() && !white(s[i])
        invariant
            from <= i <= s@.len(),
            out@ + word_at_start(s@.skip(i as int)) == first_word_of(s@),
        decreases s@.len() - i,
    {
        let ghost before = out@;
        out.push(s[i]);
        assert(s@.skip(i as int).drop_first() =~= s@.skip(i + 1));
        assert(out@ + word_at_start(s@.skip(i + 1)) =~= before + (seq![s@[i as int]]
            + word_at_start(s@.skip(i + 1))));
        i = i + 1;
    }
    assert(word_at_start(s@.skip(i as int)) =~= Seq::<char>::empty());
    assert(out@ =~= out@ + word_at_start(s@.skip(i as int)));
    out
}

/// What follows a beginning, if the text has it.
pub open spec fn after_prefix(s: Seq<char>, p: Seq<char>) -> Option<Seq<char>> {
    if is_prefix(p, s) {
        Some(s.skip(p.len() as int))
    } else {
        None
    }
}

/// What follows a beginning, if the text has it.
pub fn strip_prefix(s: &[char], p: &[char]) -> (r: Option<Vec<char>>)
    ensures
        match r {
            Some(rest) => after_prefix(s@, p@) == Some(rest@),
            None => after_prefix(s@, p@) is None,
        },
{
    if p.len() > s.len() {
        return None;
    }
    let mut i: usize = 0;
    while i < p.len()
        invariant
            i <= p@.len() <= s@.len(),
            forall|j: int| 0 <= j < i ==> s@[j] == p@[j],
        decreases p@.len() - i,
    {
        if s[i] != p[i] {
            assert(s@.take(p@.len() as int)[i as int] != p@[i as int]);
            return None;
        }
        i = i + 1;
    }
    assert(s@.take(p@.len() as int) =~= p@);
    let rest = slice_of(s, p.len(), s.len());
    assert(rest@ =~= s@.skip(p@.len() as int));
    Some(rest)
}

// ---------------------------------------------------------------------------
// Numbers
// ---------------------------------------------------------------------------
/// Why a text is not a number.
#[derive(Clone, Copy, Debug, PartialEq, Eq, Structural)]
pub enum NumberFault {
    Empty,
    InvalidDigit,
    TooLarge,
}

impl NumberFault {
    /// The message of an error.
    pub open spec fn text(self) -> Seq<char> {
        match self {
            NumberFault::Empty => "cannot parse integer from empty string"@,
            NumberFault::InvalidDigit => "invalid digit found in string"@,
            NumberFault::TooLarge => "number too large to fit in target type"@,
        }
    }

    /// The message of an error.
    pub fn message(&self) -> (r: &'static str)
        ensures
            r@ == self.text(),
    {
        match self {
            NumberFault::Empty => "cannot parse integer from empty string",
            NumberFault::InvalidDigit => "invalid digit found in string",
            NumberFault::TooLarge => "number too large to fit in target type",
        }
    }
}

/// The number that digits continue.
pub open spec fn digits_value(s: Seq<char>, acc: nat, max: nat) -> Result<nat, NumberFault>
    decreases s.len(),
{
    if s.len() == 0 {
        Ok(acc)
    } else if !('0' <= s[0] <= '9') {
        Err(NumberFault::InvalidDigit)
    } else {
        let next = acc * 10 + (s[0] as nat - '0' as nat) as nat;
        if next > max {
            Err(NumberFault::TooLarge)
        } else {
            digits_value(s.drop_first(), next, max)
        }
    }
}

/// The number, up to `max`, that a text denotes: decimal digits, with or
/// without a plus sign before them.
pub open spec fn number_of(s: Seq<char>, max: nat) -> Result<nat, NumberFault> {
    if s.len() == 0 {
        Err(NumberFault::Empty)
    } else if s.len() > 1 && s[0] == '+' {
        digits_value(s.drop_first(), 0, max)
    } else {
        digits_value(s, 0, max)
    }
}

/// The number, up to `max`, that a text denotes.
pub fn parse_number(s: &[char], max: u64) -> (r: Result<u64, NumberFault>)
    ensures
        match r {
            Ok(n) => number_of(s@, max as nat) == Ok::<nat, NumberFault>(n as nat) && n <= max,
            Err(f) => number_of(s@, max as nat) == Err::<nat, NumberFault>(f),
        },
{
    if s.len() == 0 {
        return Err(NumberFault::Empty);
    }
    let mut i: usize = if s.len() > 1 && s[0] == '+' {
        1
    } else {
        0
    };
    let mut acc: u64 = 0;
    proof {
        assert(s@.skip(1) =~= s@.drop_first());
        assert(s@.skip(0) =~= s@);
    }
    while i < s.len()
        invariant
            i <= s@.len(),
            acc <= max,
            digits_value(s@.skip(i as int), acc as nat, max as nat) == number_of(s@, max as nat),
        decreases s@.len() - i,
    {
        let c = s[i];
        proof {
            assert(s@.skip(i as int)[0] == c);
            assert(s@.skip(i as int).drop_first() =~= s@.skip(i + 1));
        }
        if c < '0' || c > '9' {
            return Err(NumberFault::InvalidDigit);
        }
        let d: u64 = c as u64 - 48;
        let next: u128 = acc as u128 * 10u128 + d as u128;
        if next > max as u128 {
            return Err(NumberFault::TooLarge);
        }
        acc = next as u64;
        i = i + 1;
    }
    Ok(acc)
}

proof fn lemma_digits_of_decimal(n: nat, max: nat, tail: Seq<char>)
    requires
        n <= max,
    ensures
        digits_value(crate::text::decimal(n) + tail, 0, max) == digits_value(tail, n, max),
    decreases n,
{
    let d = crate::text::decimal(n);
    if n < 10 {
        assert((d + tail).drop_first() =~= tail);
        assert((d + tail)[0] == d[0]);
    } else {
        let last = crate::text::digit_char(n % 10);
        let t2 = seq![last] + tail;
        assert(d + tail =~= crate::text::decimal(n / 10) + t2);
        lemma_digits_of_decimal(n / 10, max, t2);
        assert(t2.drop_first() =~= tail);
        assert(digits_value(t2, n / 10, max) == digits_value(tail, n, max));
    }
}

/// A number in decimal is read as that number.
pub proof fn law_decimal_is_read_back(n: nat, max: nat)
    requires
        n <= max,
    ensures
        number_of(crate::text::decimal(n), max) == Ok::<nat, NumberFault>(n),
{
    let d = crate::text::decimal(n);
    lemma_digits_of_decimal(n, max, Seq::empty());
    assert(d + Seq::<char>::empty() =~= d);
    lemma_decimal_starts_with_digit(n);
}

proof fn lemma_decimal_starts_with_digit(n: nat)
    ensures
        crate::text::decimal(n).len() > 0,
        '0' <= crate::text::decimal(n)[0] <= '9',
    decreases n,
{
    if n >= 10 {
        lemma_decimal_starts_with_digit(n / 10);
    }
}

} // verus!
