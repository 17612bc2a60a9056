//! Short hand-written tokens that stand for longer names.
//!
//! A token abbreviates a name when the name's characters can be split into
//! the token's characters, matched in order and case-sensitively, and filler
//! between them; filler may be any character but a capital letter `A`-`Z`.
//! Deleting all the lowercase letters of a name leaves its plainest
//! abbreviation; keeping a few of them tells apart names whose capitals agree.

use vstd::prelude::*;
use crate::error::Error;

verus! {

pub open spec fn is_capital(c: char) -> bool {
    'A' <= c && c <= 'Z'
}

/// Whether `t` abbreviates `s`.
pub open spec fn abbreviates(t: Seq<char>, s: Seq<char>) -> bool
    decreases s.len(),
{
    if s.len() == 0 {
        t.len() == 0
    } else {
        let c = s.last();
        ||| (t.len() > 0 && t.last() == c && abbreviates(t.drop_last(), s.drop_last()))
        ||| (!is_capital(c) && abbreviates(t, s.drop_last()))
    }
}

/// What `char::is_alphabetic` says of a character.
pub uninterp spec fn is_alphabetic(c: char) -> bool;

/// Relies on `char::is_alphabetic`: whether the character is a letter.
#[verifier::external_body]
fn alphabetic(c: char) -> (r: bool)
    ensures
        r == is_alphabetic(c),
{
    c.is_alphabetic()
}

/// A token that can stand as an abbreviation: a non-empty run of letters.
pub open spec fn valid_token(t: Seq<char>) -> bool {
    &&& t.len() > 0
    &&& forall|i: int| 0 <= i < t.len() ==> is_alphabetic(#[trigger] t[i])
}

/// The token abbreviates `r`, which is among the candidates, and no other candidate.
pub open spec fn unique_match(cands: Seq<Seq<char>>, t: Seq<char>, r: Seq<char>) -> bool {
    &&& cands.contains(r)
    &&& abbreviates(t, r)
    &&& forall|k: int| 0 <= k < cands.len() && abbreviates(t, #[trigger] cands[k]) ==> cands[k] == r
}

/// `l` lists each candidate that the token abbreviates, once.
pub open spec fn lists_all_matches(cands: Seq<Seq<char>>, t: Seq<char>, l: Seq<String>) -> bool {
    &&& forall|i: int| 0 <= i < l.len() ==> cands.contains(#[trigger] l[i]@) && abbreviates(t, l[i]@)
    &&& forall|k: int|
        0 <= k < cands.len() && abbreviates(t, #[trigger] cands[k]) ==> exists|i: int|
            0 <= i < l.len() && l[i]@ == cands[k]
    &&& forall|i: int, j: int| 0 <= i < l.len() && 0 <= j < l.len() && i != j ==> l[i]@ != l[j]@
}

/// The outcome of resolving the token `t` against the candidates.
pub open spec fn resolution(cands: Seq<Seq<char>>, t: Seq<char>, r: Result<String, Error>) -> bool {
    match r {
        Ok(s) => valid_token(t) && unique_match(cands, t, s@),
        Err(Error::InvalidAbbreviation(x)) => !valid_token(t) && x@ == t,
        Err(Error::NoMatch(x)) => valid_token(t) && x@ == t && forall|k: int|
            0 <= k < cands.len() ==> !abbreviates(t, #[trigger] cands[k]),
        Err(Error::AmbiguousMatch(x, l)) => valid_token(t) && x@ == t && l@.len() >= 2
            && lists_all_matches(cands, t, l@),
        Err(_) => false,
    }
}

/// Resolving a token that resolved once, against the same candidates, gives
/// the same name again and no error.
pub proof fn lemma_resolution_is_repeatable(
    cands: Seq<Seq<char>>,
    t: Seq<char>,
    first: Result<String, Error>,
    second: Result<String, Error>,
)
    requires
        resolution(cands, t, first),
        resolution(cands, t, second),
        first is Ok,
    ensures
        second is Ok,
        second->Ok_0@ == first->Ok_0@,
{
    let r = first->Ok_0@;
    let k = cands.index_of(r);
    assert(cands[k] == r);
    match second {
        Ok(s) => {
            let j = cands.index_of(s@);
            assert(cands[j] == s@);
        },
        Err(Error::AmbiguousMatch(x, l)) => {
            let i0 = cands.index_of(l@[0]@);
            let i1 = cands.index_of(l@[1]@);
            assert(cands[i0] == l@[0]@);
            assert(cands[i1] == l@[1]@);
        },
        Err(_) => {},
    }
}

/// The one candidate that `t` abbreviates, where there is exactly one.
pub open spec fn resolved(cands: Seq<Seq<char>>, t: Seq<char>) -> Seq<char> {
    choose|r: Seq<char>| unique_match(cands, t, r)
}

/// `t` can be resolved against the candidates.
pub open spec fn resolvable(cands: Seq<Seq<char>>, t: Seq<char>) -> bool {
    valid_token(t) && exists|r: Seq<char>| unique_match(cands, t, r)
}

/// A resolution succeeds exactly on a resolvable token, with the one
/// candidate that the token abbreviates.
pub proof fn lemma_resolution_outcome(cands: Seq<Seq<char>>, t: Seq<char>, r: Result<String, Error>)
    requires
        resolution(cands, t, r),
    ensures
        r is Ok <==> resolvable(cands, t),
        r matches Ok(s) ==> s@ == resolved(cands, t),
{
    match r {
        Ok(s) => {
            let c = resolved(cands, t);
            assert(unique_match(cands, t, s@));
            assert(unique_match(cands, t, c));
            let k = cands.index_of(s@);
            assert(cands[k] == s@);
        },
        Err(Error::AmbiguousMatch(x, l)) => {
            if resolvable(cands, t) {
                let c = resolved(cands, t);
                let i0 = cands.index_of(l@[0]@);
                let i1 = cands.index_of(l@[1]@);
                assert(cands[i0] == l@[0]@);
                assert(cands[i1] == l@[1]@);
            }
        },
        Err(Error::NoMatch(x)) => {
            if resolvable(cands, t) {
                let c = resolved(cands, t);
                let k = cands.index_of(c);
                assert(cands[k] == c);
            }
        },
        Err(_) => {},
    }
}

/// The capital letters of `s`, in order.
pub open spec fn capitals(s: Seq<char>) -> Seq<char>
    decreases s.len(),
{
    if s.len() == 0 {
        s
    } else if is_capital(s.last()) {
        capitals(s.drop_last()).push(s.last())
    } else {
        capitals(s.drop_last())
    }
}

/// Whether `t` can be read off `s` in order, skipping characters of `s`.
pub open spec fn is_subsequence(t: Seq<char>, s: Seq<char>) -> bool
    decreases s.len(),
{
    if t.len() == 0 {
        true
    } else if s.len() == 0 {
        false
    } else {
        ||| (t.last() == s.last() && is_subsequence(t.drop_last(), s.drop_last()))
        ||| is_subsequence(t, s.drop_last())
    }
}

proof fn lemma_subsequence_capitals_len(t: Seq<char>, s: Seq<char>)
    requires
        is_subsequence(t, s),
    ensures
        capitals(t).len() <= capitals(s).len(),
    decreases s.len(),
{
    if t.len() > 0 && s.len() > 0 {
        if t.last() == s.last() && is_subsequence(t.drop_last(), s.drop_last()) {
            lemma_subsequence_capitals_len(t.drop_last(), s.drop_last());
        } else {
            lemma_subsequence_capitals_len(t, s.drop_last());
        }
    }
}

proof fn lemma_no_capitals_abbreviated_by_nothing(s: Seq<char>)
    requires
        capitals(s).len() == 0,
    ensures
        abbreviates(Seq::empty(), s),
    decreases s.len(),
{
    if s.len() > 0 {
        lemma_no_capitals_abbreviated_by_nothing(s.drop_last());
    }
}

/// A token abbreviates a name exactly when the token's characters occur in
/// the name in order and the token's capitals are exactly the name's: what
/// is left of the name once the lowercase letters that the token does not
/// keep are deleted is the token.
pub proof fn lemma_abbreviation_keeps_capitals(t: Seq<char>, s: Seq<char>)
    ensures
        abbreviates(t, s) <==> is_subsequence(t, s) && capitals(t) == capitals(s),
    decreases s.len(),
{
    if s.len() > 0 {
        let c = s.last();
        let s1 = s.drop_last();
        lemma_abbreviation_keeps_capitals(t, s1);
        if t.len() > 0 {
            let t1 = t.drop_last();
            let x = t.last();
            assert(abbreviates(t, s) == ((x == c && abbreviates(t1, s1)) || (!is_capital(c)
                && abbreviates(t, s1))));
            assert(is_subsequence(t, s) == ((x == c && is_subsequence(t1, s1)) || is_subsequence(
                t,
                s1,
            )));
            lemma_abbreviation_keeps_capitals(t1, s1);
            if is_subsequence(t, s1) {
                lemma_subsequence_capitals_len(t, s1);
            }
            if t.last() == c {
                if is_capital(c) {
                    assert(capitals(t) == capitals(t1).push(c));
                    assert(capitals(s) == capitals(s1).push(c));
                    if capitals(t) == capitals(s) {
                        assert(capitals(t1) =~= capitals(t).drop_last());
                        assert(capitals(s1) =~= capitals(s).drop_last());
                    }
                } else {
                    assert(capitals(t) == capitals(t1));
                    assert(capitals(s) == capitals(s1));
                }
            } else if is_capital(c) {
                assert(capitals(s) == capitals(s1).push(c));
            } else {
                assert(capitals(s) == capitals(s1));
            }
        } else {
            assert(capitals(t) == t);
            assert(is_subsequence(t, s));
            assert(is_subsequence(t, s1));
            assert(abbreviates(t, s) == (!is_capital(c) && abbreviates(t, s1)));
            if is_capital(c) {
                assert(capitals(s) == capitals(s1).push(c));
            } else {
                assert(capitals(s) == capitals(s1));
            }
            if capitals(s).len() == 0 {
                lemma_no_capitals_abbreviated_by_nothing(s);
            }
        }
    } else {
        assert(capitals(s) == s);
        if t.len() == 0 {
            assert(t =~= s);
        }
        if t.len() > 0 {
            assert(!is_subsequence(t, s));
            assert(!abbreviates(t, s));
        }
    }
}

/// Whether `t` abbreviates `s`, by running through `s` once and tracking
/// how many characters of `t` each prefix of `s` can have matched.
fn abbreviation_matches(t: &str, s: &str) -> (r: bool)
    ensures
        r == abbreviates(t@, s@),
{
    let n = t.unicode_len();
    let m = s.unicode_len();
    let mut tc: Vec<char> = Vec::new();
    let mut j: usize = 0;
    while j < n
        invariant
            n == t@.len(),
            j <= n,
            tc@ == t@.subrange(0, j as int),
        decreases n - j,
    {
        tc.push(t.get_char(j));
        assert(t@.subrange(0, j + 1) == t@.subrange(0, j as int).push(t@[j as int]));
        j = j + 1;
    }
    assert(tc@ == t@);
    let mut reach: Vec<bool> = Vec::new();
    reach.push(true);
    j = 0;
    while j < n
        invariant
            n == t@.len(),
            j <= n,
            reach@.len() == j + 1,
            forall|k: int|
                0 <= k <= j ==> #[trigger] reach@[k] == abbreviates(
                    t@.subrange(0, k),
                    s@.subrange(0, 0),
                ),
        decreases n - j,
    {
        reach.push(false);
        j = j + 1;
    }
    let mut i: usize = 0;
    while i < m
        invariant
            n == t@.len(),
            m == s@.len(),
            i <= m,
            tc@ == t@,
            reach@.len() == n + 1,
            forall|k: int|
                0 <= k <= n ==> #[trigger] reach@[k] == abbreviates(
                    t@.subrange(0, k),
                    s@.subrange(0, i as int),
                ),
        decreases m - i,
    {
        let c = s.get_char(i);
        let filler = !('A' <= c && c <= 'Z');
        let mut next: Vec<bool> = Vec::new();
        proof {
            let sp = s@.subrange(0, i + 1);
            assert(sp.drop_last() == s@.subrange(0, i as int));
            assert(sp.last() == c);
        }
        next.push(filler && reach[0]);
        let mut k: usize = 0;
        while k < n
            invariant
                n == t@.len(),
                m == s@.len(),
                i < m,
                c == s@[i as int],
                filler == !is_capital(c),
                tc@ == t@,
                reach@.len() == n + 1,
                forall|k2: int|
                    0 <= k2 <= n ==> #[trigger] reach@[k2] == abbreviates(
                        t@.subrange(0, k2),
                        s@.subrange(0, i as int),
                    ),
                k <= n,
                next@.len() == k + 1,
                forall|k2: int|
                    0 <= k2 <= k ==> #[trigger] next@[k2] == abbreviates(
                        t@.subrange(0, k2),
                        s@.subrange(0, i + 1),
                    ),
            decreases n - k,
        {
            let kept = tc[k] == c && reach[k];
            let skipped = filler && reach[k + 1];
            proof {
                let sp = s@.subrange(0, i + 1);
                let tp = t@.subrange(0, k + 1);
                assert(sp.drop_last() == s@.subrange(0, i as int));
                assert(sp.last() == c);
                assert(tp.drop_last() == t@.subrange(0, k as int));
                assert(tp.last() == t@[k as int]);
            }
            next.push(kept || skipped);
            k = k + 1;
        }
        reach = next;
        i = i + 1;
    }
    assert(t@.subrange(0, n as int) == t@);
    assert(s@.subrange(0, m as int) == s@);
    reach[n]
}

/// Whether `t` is a non-empty run of letters.
fn is_valid_token(t: &str) -> (r: bool)
    ensures
        r == valid_token(t@),
{
    let n = t.unicode_len();
    if n == 0 {
        return false;
    }
    let mut i: usize = 0;
    while i < n
        invariant
            n == t@.len(),
            i <= n,
            forall|k: int| 0 <= k < i ==> is_alphabetic(#[trigger] t@[k]),
        decreases n - i,
    {
        if !alphabetic(t.get_char(i)) {
            return false;
        }
        i = i + 1;
    }
    true
}

/// A token known to be a valid abbreviation.
#[derive(Debug)]
pub struct Abbreviation {
    st: String,
}

impl View for Abbreviation {
    type V = Seq<char>;

    closed spec fn view(&self) -> Seq<char> {
        self.st@
    }
}

impl Abbreviation {
    #[verifier::type_invariant]
    closed spec fn inv(self) -> bool {
        valid_token(self.st@)
    }

    /// The token `st`, which must be a non-empty run of letters.
    pub fn new(st: &str) -> (r: Result<Abbreviation, Error>)
        ensures
            r is Ok <==> valid_token(st@),
            r matches Ok(a) ==> a@ == st@,
            r matches Err(e) ==> (e matches Error::InvalidAbbreviation(x) && x@ == st@),
    {
        if is_valid_token(st) {
            Ok(Abbreviation { st: st.to_owned() })
        } else {
            Err(Error::InvalidAbbreviation(st.to_owned()))
        }
    }

    /// Whether this token abbreviates `longstring`.
    pub fn abbreviates(&self, longstring: &str) -> (r: bool)
        ensures
            r == abbreviates(self@, longstring@),
    {
        abbreviation_matches(self.st.as_str(), longstring)
    }

    pub fn st(&self) -> (r: &str)
        ensures
            r@ == self@,
            valid_token(r@),
    {
        proof {
            use_type_invariant(self);
        }
        self.st.as_str()
    }
}

/// The position in `l` of a text equal to `s`, if there is one.
fn position_of(l: &Vec<String>, s: &str) -> (r: Option<usize>)
    ensures
        r matches Some(i) ==> i < l@.len() && l@[i as int]@ == s@,
        r is None ==> forall|i: int| 0 <= i < l@.len() ==> #[trigger] l@[i]@ != s@,
{
    let mut i: usize = 0;
    while i < l.len()
        invariant
            i <= l@.len(),
            forall|k: int| 0 <= k < i ==> #[trigger] l@[k]@ != s@,
        decreases l@.len() - i,
    {
        if crate::products::same_text(l[i].as_str(), s) {
            return Some(i);
        }
        i = i + 1;
    }
    None
}

/// Resolves abbreviations against a fixed collection of names, remembering
/// each token it has resolved.
pub struct AbbreviationResolver {
    stringcollection: Vec<String>,
    lookuptable: Vec<(String, String)>,
}

impl View for AbbreviationResolver {
    type V = Seq<Seq<char>>;

    /// The candidate names.
    closed spec fn view(&self) -> Seq<Seq<char>> {
        self.stringcollection@.map_values(|s: String| s@)
    }
}

impl AbbreviationResolver {
    /// Every remembered answer is the one resolution of its token.
    pub closed spec fn wf(self) -> bool {
        forall|i: int|
            0 <= i < self.lookuptable@.len() ==> valid_token(#[trigger] self.lookuptable@[i].0@)
                && unique_match(self@, self.lookuptable@[i].0@, self.lookuptable@[i].1@)
    }

    /// A resolver over the names in `stringcollection`.
    pub fn new(stringcollection: Vec<String>) -> (r: AbbreviationResolver)
        ensures
            r@ == stringcollection@.map_values(|s: String| s@),
            r.wf(),
    {
        AbbreviationResolver { stringcollection, lookuptable: Vec::new() }
    }

    /// The candidates that `abbrev` abbreviates, each once, in the order of
    /// their first appearance.
    fn matching(&self, abbrev: &Abbreviation) -> (r: Vec<String>)
        ensures
            lists_all_matches(self@, abbrev@, r@),
    {
        let mut found: Vec<String> = Vec::new();
        let n = self.stringcollection.len();
        let mut i: usize = 0;
        while i < n
            invariant
                n == self.stringcollection@.len(),
                self@.len() == n,
                i <= n,
                forall|k: int|
                    0 <= k < found@.len() ==> self@.contains(#[trigger] found@[k]@) && abbreviates(
                        abbrev@,
                        found@[k]@,
                    ),
                forall|j: int|
                    0 <= j < i && abbreviates(abbrev@, #[trigger] self@[j]) ==> exists|k: int|
                        0 <= k < found@.len() && found@[k]@ == self@[j],
                forall|k1: int, k2: int|
                    0 <= k1 < found@.len() && 0 <= k2 < found@.len() && k1 != k2
                        ==> found@[k1]@ != found@[k2]@,
            decreases n - i,
        {
            let cand = self.stringcollection[i].as_str();
            let ghost before = found@;
            assert(self@[i as int] == cand@);
            if abbrev.abbreviates(cand) {
                match position_of(&found, cand) {
                    Some(p) => {
                        assert(found@[p as int]@ == self@[i as int]);
                    },
                    None => {
                        found.push(cand.to_owned());
                        assert(found@[found@.len() - 1]@ == self@[i as int]);
                        assert forall|j: int|
                            0 <= j < i && abbreviates(abbrev@, #[trigger] self@[j]) implies exists|k: int|
                                0 <= k < found@.len() && found@[k]@ == self@[j] by {
                            let k = choose|k: int| 0 <= k < before.len() && before[k]@ == self@[j];
                            assert(found@[k] == before[k]);
                        }
                    },
                }
            }
            i = i + 1;
        }
        found
    }

    /// Resolves `abbrev` from scratch.
    fn resolveabbreviation(&self, abbrev: &Abbreviation) -> (r: Result<String, Error>)
        ensures
            resolution(self@, abbrev@, r),
    {
        let found = self.matching(abbrev);
        let token = abbrev.st();
        if found.len() == 0 {
            Err(Error::NoMatch(token.to_owned()))
        } else if found.len() == 1 {
            let s = found[0].as_str().to_owned();
            assert(forall|k: int|
                0 <= k < self@.len() && abbreviates(abbrev@, #[trigger] self@[k]) ==> self@[k]
                    == found@[0]@);
            Ok(s)
        } else {
            Err(Error::AmbiguousMatch(token.to_owned(), found))
        }
    }

    /// The one candidate that the token `abbrev_str` abbreviates. A token
    /// resolved once is answered from memory afterwards.
    pub fn call(&mut self, abbrev_str: &str) -> (r: Result<String, Error>)
        requires
            old(self).wf(),
        ensures
            final(self).wf(),
            final(self)@ == old(self)@,
            resolution(old(self)@, abbrev_str@, r),
    {
        let n = self.lookuptable.len();
        let mut i: usize = 0;
        while i < n
            invariant
                n == self.lookuptable@.len(),
                i <= n,
                self.wf(),
            decreases n - i,
        {
            if crate::products::same_text(self.lookuptable[i].0.as_str(), abbrev_str) {
                return Ok(self.lookuptable[i].1.as_str().to_owned());
            }
            i = i + 1;
        }
        let abbrev = match Abbreviation::new(abbrev_str) {
            Ok(a) => a,
            Err(e) => return Err(e),
        };
        let r = self.resolveabbreviation(&abbrev);
        if let Ok(s) = &r {
            self.lookuptable.push((abbrev_str.to_owned(), s.as_str().to_owned()));
        }
        r
    }
}

} // verus!
