//! Scanning texts character by character: runs of a class of characters and
//! decimal digits.

use vstd::prelude::*;

verus! {

pub open spec fn is_digit(c: char) -> bool {
    '0' <= c && c <= '9'
}

/// The classes of characters that the grammars skip over in runs.
#[derive(Clone, Copy, PartialEq, Eq, Structural)]
pub enum CharClass {
    Digit,
    Space,
    Slash,
    /// Digits, points and slashes: the characters of a written rational.
    Numeral,
}

pub open spec fn in_class(k: CharClass, c: char) -> bool {
    match k {
        CharClass::Digit => is_digit(c),
        CharClass::Space => c == ' ',
        CharClass::Slash => c == '/',
        CharClass::Numeral => is_digit(c) || c == '.' || c == '/',
    }
}

/// Where the run of characters of class `k` that starts at `i` ends.
pub open spec fn run(s: Seq<char>, i: int, k: CharClass) -> int
    decreases s.len() - i,
{
    if 0 <= i < s.len() && in_class(k, s[i]) {
        run(s, i + 1, k)
    } else {
        i
    }
}

pub proof fn lemma_run_bounds(s: Seq<char>, i: int, k: CharClass)
    requires
        0 <= i <= s.len(),
    ensures
        i <= run(s, i, k) <= s.len(),
        forall|j: int| i <= j < run(s, i, k) ==> in_class(k, #[trigger] s[j]),
        run(s, i, k) < s.len() ==> !in_class(k, s[run(s, i, k)]),
    decreases s.len() - i,
{
    if i < s.len() && in_class(k, s[i]) {
        lemma_run_bounds(s, i + 1, k);
    }
}

/// The decimal value of a run of digits.
pub open spec fn digits_value(s: Seq<char>) -> int
    decreases s.len(),
{
    if s.len() == 0 {
        0
    } else {
        10 * digits_value(s.drop_last()) + ((s.last() as u32) - ('0' as u32))
    }
}

pub open spec fn all_digits(s: Seq<char>) -> bool {
    forall|i: int| 0 <= i < s.len() ==> is_digit(#[trigger] s[i])
}

/// The characters of `s`.
pub fn chars_of(s: &str) -> (r: Vec<char>)
    ensures
        r@ == s@,
{
    let n = s.unicode_len();
    let mut out: Vec<char> = Vec::new();
    let mut i: usize = 0;
    while i < n
        invariant
            n == s@.len(),
            i <= n,
            out@ == s@.subrange(0, i as int),
        decreases n - i,
    {
        out.push(s.get_char(i));
        assert(s@.subrange(0, i + 1) == s@.subrange(0, i as int).push(s@[i as int]));
        i = i + 1;
    }
    assert(s@.subrange(0, n as int) == s@);
    out
}

/// The text made of `s[from..to]`.
pub fn text_of(s: &Vec<char>, from: usize, to: usize) -> (r: String)
    requires
        from <= to <= s@.len(),
    ensures
        r@ == s@.subrange(from as int, to as int),
{
    let mut out = String::new();
    let mut i: usize = from;
    while i < to
        invariant
            from <= i <= to,
            to <= s@.len(),
            out@ == s@.subrange(from as int, i as int),
        decreases to - i,
    {
        let mut one = String::new();
        push_char(&mut one, s[i]);
        out.append(one.as_str());
        assert(s@.subrange(from as int, i + 1) == s@.subrange(from as int, i as int).push(s@[i as int]));
        i = i + 1;
    }
    out
}

/// Relies on `String::push`: the text grows by the one character.
#[verifier::external_body]
fn push_char(s: &mut String, c: char)
    ensures
        final(s)@ == old(s)@.push(c),
{
    s.push(c);
}

/// Where the run of characters of class `k` that starts at `i` ends.
pub fn run_end(s: &Vec<char>, i: usize, k: CharClass) -> (r: usize)
    requires
        i <= s@.len(),
    ensures
        r == run(s@, i as int, k),
        i <= r <= s@.len(),
{
    proof {
        lemma_run_bounds(s@, i as int, k);
    }
    let mut j: usize = i;
    while j < s.len() && char_in_class(k, s[j])
        invariant
            i <= j <= s@.len(),
            run(s@, i as int, k) == run(s@, j as int, k),
        decreases s@.len() - j,
    {
        j = j + 1;
    }
    j
}

pub fn char_in_class(k: CharClass, c: char) -> (r: bool)
    ensures
        r == in_class(k, c),
{
    match k {
        CharClass::Digit => '0' <= c && c <= '9',
        CharClass::Space => c == ' ',
        CharClass::Slash => c == '/',
        CharClass::Numeral => ('0' <= c && c <= '9') || c == '.' || c == '/',
    }
}

proof fn lemma_digits_value_grows(s: Seq<char>, j: int)
    requires
        0 <= j <= s.len(),
        all_digits(s),
    ensures
        0 <= digits_value(s.subrange(0, j)) <= digits_value(s),
    decreases s.len() - j,
{
    if j < s.len() {
        lemma_digits_value_grows(s, j + 1);
        let t = s.subrange(0, j + 1);
        assert(t.drop_last() == s.subrange(0, j));
        assert(is_digit(t.last()));
    } else {
        assert(s.subrange(0, j) == s);
        lemma_digits_value_nonneg(s);
    }
}

proof fn lemma_digits_value_nonneg(s: Seq<char>)
    requires
        all_digits(s),
    ensures
        digits_value(s) >= 0,
    decreases s.len(),
{
    if s.len() > 0 {
        lemma_digits_value_nonneg(s.drop_last());
    }
}

/// The value of the digits `s[from..to]`, where it fits in an `i64`.
pub fn digits_to_i64(s: &Vec<char>, from: usize, to: usize) -> (r: Option<i64>)
    requires
        from <= to <= s@.len(),
        all_digits(s@.subrange(from as int, to as int)),
    ensures
        r is Some <==> digits_value(s@.subrange(from as int, to as int)) <= i64::MAX,
        r matches Some(v) ==> v == digits_value(s@.subrange(from as int, to as int)) && v >= 0,
{
    let ghost whole = s@.subrange(from as int, to as int);
    let mut v: i64 = 0;
    let mut i: usize = from;
    assert(whole.subrange(0, 0) == Seq::<char>::empty());
    while i < to
        invariant
            from <= i <= to,
            to <= s@.len(),
            whole == s@.subrange(from as int, to as int),
            all_digits(whole),
            v == digits_value(whole.subrange(0, i - from)),
            v >= 0,
        decreases to - i,
    {
        let c = s[i];
        assert(c == whole[i - from]);
        let d = ((c as u32) - ('0' as u32)) as i64;
        let ghost prefix = whole.subrange(0, i - from + 1);
        assert(prefix.drop_last() == whole.subrange(0, i - from));
        if v > (i64::MAX - d) / 10 {
            proof {
                lemma_digits_value_grows(whole, i - from + 1);
                assert(10 * v + d > i64::MAX) by (nonlinear_arith)
                    requires
                        v > (i64::MAX - d) / 10,
                        0 <= d <= 9,
                ;
            }
            return None;
        }
        assert(10 * v + d <= i64::MAX) by (nonlinear_arith)
            requires
                v <= (i64::MAX - d) / 10,
                0 <= d <= 9,
                v >= 0,
        ;
        v = 10 * v + d;
        i = i + 1;
    }
    assert(whole.subrange(0, to - from) == whole);
    Some(v)
}

} // verus!
