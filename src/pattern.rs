//! Compiled wildcard patterns and the matcher.
use vstd::prelude::*;
use crate::chars::{chars_of, lowercase, string_of};
use crate::laws::law_compiling_keeps_meaning;
use crate::semantics::{
    char_matches, collapse, is_collapsed, lemma_collapse_shape, lemma_fixed_stretch,
    lemma_resume_after_stretch, lemma_unfold, match_from, wild_match,
};

verus! {

/// A pattern compiled for matching whole strings.
///
/// The pattern is kept with each run of multi-character wildcards shortened
/// to one, together with the two wildcard symbols it was compiled for and
/// whether letters are compared without regard to case.
#[derive(Debug)]
pub struct WildMatchPattern {
    pattern: Vec<char>,
    case_insensitive: bool,
    multi_wildcard: char,
    single_wildcard: char,
}

/// A pattern with `*` as the multi-character wildcard and `?` as the
/// single-character wildcard.
pub type WildMatch = WildMatchPattern;

/// The default multi-character wildcard.
pub const DEFAULT_MULTI_WILDCARD: char = '*';

/// The default single-character wildcard.
pub const DEFAULT_SINGLE_WILDCARD: char = '?';

impl WildMatchPattern {
    #[verifier::type_invariant]
    spec fn well_formed(self) -> bool {
        &&& self.multi_wildcard != self.single_wildcard
        &&& is_collapsed(self.pattern@, self.multi_wildcard)
    }

    /// The compiled pattern's symbols.
    pub closed spec fn symbols(&self) -> Seq<char> {
        self.pattern@
    }

    /// The symbol that stands for any run of characters.
    pub closed spec fn multi(&self) -> char {
        self.multi_wildcard
    }

    /// The symbol that stands for exactly one character.
    pub closed spec fn single(&self) -> char {
        self.single_wildcard
    }

    /// Whether characters are compared by their lowercase forms too.
    pub closed spec fn ignores_case(&self) -> bool {
        self.case_insensitive
    }

    /// This pattern matches the whole of `text`.
    pub open spec fn matches_spec(&self, text: Seq<char>) -> bool {
        wild_match(self.symbols(), text, self.multi(), self.single(), self.ignores_case())
    }

    /// Compiles `pattern` with the given wildcard symbols, which must differ.
    pub fn with_wildcards(pattern: &str, multi: char, single: char, case_insensitive: bool) -> (r:
        Self)
        requires
            multi != single,
        ensures
            r.symbols() == collapse(pattern@, multi),
            r.multi() == multi,
            r.single() == single,
            r.ignores_case() == case_insensitive,
            forall|text: Seq<char>|
                #[trigger] r.matches_spec(text) == wild_match(
                    pattern@,
                    text,
                    multi,
                    single,
                    case_insensitive,
                ),
    {
        let cs = chars_of(pattern);
        let mut out: Vec<char> = Vec::new();
        let mut k: usize = 0;
        while k < cs.len()
            invariant
                k <= cs.len(),
                out@ == collapse(cs@.subrange(0, k as int), multi),
            decreases cs.len() - k,
        {
            let c = cs[k];
            let repeated = c == multi && k >= 1 && cs[k - 1] == multi;
            if !repeated {
                out.push(c);
            }
            proof {
                let pre = cs@.subrange(0, k as int + 1);
                assert(pre.drop_last() =~= cs@.subrange(0, k as int));
            }
            k += 1;
        }
        proof {
            assert(cs@.subrange(0, cs.len() as int) =~= cs@);
            lemma_collapse_shape(cs@, multi);
            assert forall|text: Seq<char>|
                wild_match(collapse(pattern@, multi), text, multi, single, case_insensitive)
                    == wild_match(pattern@, text, multi, single, case_insensitive) by {
                law_compiling_keeps_meaning(pattern@, text, multi, single, case_insensitive);
            }
        }
        WildMatchPattern {
            pattern: out,
            case_insensitive,
            multi_wildcard: multi,
            single_wildcard: single,
        }
    }

    /// Compiles `pattern` with `*` and `?` as wildcards, comparing characters
    /// exactly.
    pub fn new(pattern: &str) -> (r: Self)
        ensures
            r.symbols() == collapse(pattern@, DEFAULT_MULTI_WILDCARD),
            r.multi() == DEFAULT_MULTI_WILDCARD,
            r.single() == DEFAULT_SINGLE_WILDCARD,
            !r.ignores_case(),
            forall|text: Seq<char>|
                #[trigger] r.matches_spec(text) == wild_match(
                    pattern@,
                    text,
                    DEFAULT_MULTI_WILDCARD,
                    DEFAULT_SINGLE_WILDCARD,
                    false,
                ),
    {
        Self::with_wildcards(pattern, DEFAULT_MULTI_WILDCARD, DEFAULT_SINGLE_WILDCARD, false)
    }

    /// Compiles `pattern` with `*` and `?` as wildcards, comparing characters
    /// without regard to case.
    pub fn new_case_insensitive(pattern: &str) -> (r: Self)
        ensures
            r.symbols() == collapse(pattern@, DEFAULT_MULTI_WILDCARD),
            r.multi() == DEFAULT_MULTI_WILDCARD,
            r.single() == DEFAULT_SINGLE_WILDCARD,
            r.ignores_case(),
            forall|text: Seq<char>|
                #[trigger] r.matches_spec(text) == wild_match(
                    pattern@,
                    text,
                    DEFAULT_MULTI_WILDCARD,
                    DEFAULT_SINGLE_WILDCARD,
                    true,
                ),
    {
        Self::with_wildcards(pattern, DEFAULT_MULTI_WILDCARD, DEFAULT_SINGLE_WILDCARD, true)
    }

    /// Same as [`WildMatchPattern::matches`]; kept for callers of the older name.
    pub fn is_match(&self, input: &str) -> (r: bool)
        ensures
            r == self.matches_spec(input@),
    {
        self.matches(input)
    }

    /// The compiled pattern as a string, with each run of multi-character
    /// wildcards shortened to one.
    pub fn pattern(&self) -> (r: String)
        ensures
            r@ == self.symbols(),
    {
        string_of(self.pattern.as_slice())
    }

    /// The compiled pattern's symbols, with each run of multi-character
    /// wildcards shortened to one.
    pub fn pattern_chars(&self) -> (r: &[char])
        ensures
            r@ == self.symbols(),
            is_collapsed(r@, self.multi()),
    {
        proof {
            use_type_invariant(self);
        }
        self.pattern.as_slice()
    }

    /// Whether characters are compared without regard to case.
    pub fn is_case_insensitive(&self) -> (r: bool)
        ensures
            r == self.ignores_case(),
    {
        self.case_insensitive
    }

    /// The symbol that stands for any run of characters.
    pub fn multi_wildcard(&self) -> (r: char)
        ensures
            r == self.multi(),
    {
        self.multi_wildcard
    }

    /// The symbol that stands for exactly one character.
    pub fn single_wildcard(&self) -> (r: char)
        ensures
            r == self.single(),
            r != self.multi(),
    {
        proof {
            use_type_invariant(self);
        }
        self.single_wildcard
    }

    /// The text form of the compiled pattern, the same as
    /// [`WildMatchPattern::pattern`].
    pub fn to_string(&self) -> (r: String)
        ensures
            r@ == self.symbols(),
    {
        self.pattern()
    }

    /// Compares one pattern symbol that is not the multi-character wildcard
    /// with one input character.
    fn symbol_matches(&self, sym: char, c: char) -> (r: bool)
        ensures
            r == char_matches(sym, c, self.single(), self.ignores_case()),
    {
        if sym == self.single_wildcard || sym == c {
            true
        } else if self.case_insensitive {
            let a = lowercase(sym);
            let b = lowercase(c);
            same_chars(&a, &b)
        } else {
            false
        }
    }

    /// Returns whether the pattern matches the whole of `input`.
    ///
    /// The input is scanned once from the left. When a symbol fails to match,
    /// the scan resumes just after the most recent multi-character wildcard,
    /// which then absorbs one more character than before.
    pub fn matches(&self, input: &str) -> (r: bool)
        ensures
            r == self.matches_spec(input@),
    {
        let text = chars_of(input);
        let pat = &self.pattern;
        let n = pat.len();
        let tlen = text.len();
        let ghost p = pat@;
        let ghost t = text@;
        let ghost m = self.multi_wildcard;
        let ghost sg = self.single_wildcard;
        let ghost ic = self.case_insensitive;
        proof {
            assert(p.skip(0) =~= p);
            assert(t.skip(0) =~= t);
        }
        if n == 0 {
            return tlen == 0;
        }
        let mut j: usize = 0;
        if tlen > 0 {
            // `i` is the input character at hand, `star` the most recent
            // multi-character wildcard, and `mark` the input position where the
            // symbols after it start; the wildcard absorbs what lies before.
            let mut i: usize = 0;
            let mut star: Option<usize> = None;
            let mut mark: usize = 0;
            loop
                invariant_except_break
                    i < tlen,
                    mark <= i,
                invariant
                    pat@ == p,
                    text@ == t,
                    p == self.pattern@,
                    t == input@,
                    m == self.multi_wildcard,
                    sg == self.single_wildcard,
                    ic == self.case_insensitive,
                    n == p.len(),
                    tlen == t.len(),
                    j <= n,
                    star is None ==> match_from(p, t, m, sg, ic, 0, 0) == match_from(
                        p,
                        t,
                        m,
                        sg,
                        ic,
                        j as int,
                        i as int,
                    ),
                    star matches Some(st) ==> {
                        &&& st < j
                        &&& p[st as int] == m
                        &&& i - mark == j - st - 1
                        &&& forall|q: int| st < q < j ==> p[q] != m
                        &&& forall|q: int|
                            0 <= q < j - st - 1 ==> char_matches(
                                p[st + 1 + q],
                                #[trigger] t[mark + q],
                                sg,
                                ic,
                            )
                        &&& match_from(p, t, m, sg, ic, 0, 0) == match_from(
                            p,
                            t,
                            m,
                            sg,
                            ic,
                            st as int,
                            mark as int,
                        )
                    },
                ensures
                    j <= n,
                    match_from(p, t, m, sg, ic, 0, 0) == match_from(
                        p,
                        t,
                        m,
                        sg,
                        ic,
                        j as int,
                        tlen as int,
                    ),
                decreases tlen - mark, (n - j) + (tlen - i),
            {
                if j < n && pat[j] == self.multi_wildcard {
                    proof {
                        if let Some(st) = star {
                            lemma_resume_after_stretch(
                                p, t, m, sg, ic, st as int, mark as int, j as int, i as int);
                        }
                    }
                    star = Some(j);
                    mark = i;
                    j += 1;
                } else if j < n && self.symbol_matches(pat[j], text[i]) {
                    proof {
                        lemma_unfold(p, t, m, sg, ic, j as int, i as int);
                    }
                    j += 1;
                    i += 1;
                    if i == tlen {
                        proof {
                            if let Some(st) = star {
                                lemma_resume_after_stretch(
                                    p, t, m, sg, ic, st as int, mark as int, j as int, i as int);
                            }
                        }
                        break;
                    }
                } else if let Some(st) = star {
                    proof {
                        lemma_unfold(p, t, m, sg, ic, j as int, i as int);
                        lemma_fixed_stretch(p, t, m, sg, ic, st + 1, mark as int, j - st - 1);
                        lemma_unfold(p, t, m, sg, ic, st as int, mark as int);
                    }
                    j = st + 1;
                    mark += 1;
                    i = mark;
                    if i == tlen {
                        proof {
                            lemma_unfold(p, t, m, sg, ic, st as int, mark as int);
                        }
                        break;
                    }
                } else {
                    proof {
                        lemma_unfold(p, t, m, sg, ic, j as int, i as int);
                        assert(p.skip(0) =~= p);
                        assert(t.skip(0) =~= t);
                    }
                    return false;
                }
            }
        }
        while j < n && pat[j] == self.multi_wildcard
            invariant
                pat@ == p,
                m == self.multi_wildcard,
                n == p.len(),
                tlen == t.len(),
                j <= n,
                match_from(p, t, m, sg, ic, 0, 0) == match_from(p, t, m, sg, ic, j as int, tlen as int),
            decreases n - j,
        {
            proof {
                lemma_unfold(p, t, m, sg, ic, j as int, tlen as int);
            }
            j += 1;
        }
        proof {
            lemma_unfold(p, t, m, sg, ic, j as int, tlen as int);
        }
        j == n
    }
}

/// Whether two character sequences are equal.
fn same_chars(a: &Vec<char>, b: &Vec<char>) -> (r: bool)
    ensures
        r == (a@ == b@),
{
    if a.len() != b.len() {
        return false;
    }
    let mut k: usize = 0;
    while k < a.len()
        invariant
            a.len() == b.len(),
            k <= a.len(),
            forall|q: int| 0 <= q < k ==> a@[q] == b@[q],
        decreases a.len() - k,
    {
        if a[k] != b[k] {
            return false;
        }
        k += 1;
    }
    proof {
        assert(a@ =~= b@);
    }
    true
}

/// The empty pattern with the default wildcards, which matches only the empty
/// string.
impl Default for WildMatchPattern {
    fn default() -> (r: Self)
        ensures
            r.symbols() == Seq::<char>::empty(),
            r.multi() == DEFAULT_MULTI_WILDCARD,
            r.single() == DEFAULT_SINGLE_WILDCARD,
            !r.ignores_case(),
    {
        WildMatchPattern {
            pattern: Vec::new(),
            case_insensitive: false,
            multi_wildcard: DEFAULT_MULTI_WILDCARD,
            single_wildcard: DEFAULT_SINGLE_WILDCARD,
        }
    }
}

/// Two compiled patterns are equal when they hold the same symbols, use the
/// same wildcards and treat case alike.
impl PartialEq for WildMatchPattern {
    fn eq(&self, other: &Self) -> (r: bool) {
        same_chars(&self.pattern, &other.pattern) && self.case_insensitive == other.case_insensitive
            && self.multi_wildcard == other.multi_wildcard && self.single_wildcard
            == other.single_wildcard
    }
}

impl vstd::std_specs::cmp::PartialEqSpecImpl for WildMatchPattern {
    open spec fn obeys_eq_spec() -> bool {
        true
    }

    open spec fn eq_spec(&self, other: &Self) -> bool {
        &&& self.symbols() == other.symbols()
        &&& self.ignores_case() == other.ignores_case()
        &&& self.multi() == other.multi()
        &&& self.single() == other.single()
    }
}

/// A compiled pattern is equal to a string when it matches it.
impl<'a> PartialEq<&'a str> for WildMatchPattern {
    fn eq(&self, other: &&'a str) -> (r: bool) {
        self.matches(other)
    }
}

impl<'a> vstd::std_specs::cmp::PartialEqSpecImpl<&'a str> for WildMatchPattern {
    open spec fn obeys_eq_spec() -> bool {
        true
    }

    open spec fn eq_spec(&self, other: &&'a str) -> bool {
        self.matches_spec(other@)
    }
}

impl Clone for WildMatchPattern {
    fn clone(&self) -> (r: Self)
        ensures
            r.symbols() == self.symbols(),
            r.multi() == self.multi(),
            r.single() == self.single(),
            r.ignores_case() == self.ignores_case(),
    {
        proof {
            use_type_invariant(self);
        }
        let pattern = self.pattern.clone();
        proof {
            assert(pattern@ =~= self.pattern@);
        }
        WildMatchPattern {
            pattern,
            case_insensitive: self.case_insensitive,
            multi_wildcard: self.multi_wildcard,
            single_wildcard: self.single_wildcard,
        }
    }
}

} // verus!
