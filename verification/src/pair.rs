use vstd::prelude::*;
use vstd::string::StrSliceExecFns;

verus! {

/// Lexicographic "less than or equal" on character sequences, by code point.
pub open spec fn lex_le(a: Seq<char>, b: Seq<char>) -> bool
    decreases a.len(),
{
    if a.len() == 0 {
        true
    } else if b.len() == 0 {
        false
    } else if a[0] == b[0] {
        lex_le(a.subrange(1, a.len() as int), b.subrange(1, b.len() as int))
    } else {
        (a[0] as u32) < (b[0] as u32)
    }
}

/// Equal code points mean equal characters.
proof fn lemma_char_cast_injective(c: char, d: char)
    requires
        c as u32 == d as u32,
    ensures
        c == d,
{
}

/// `lex_le` is total: one direction always holds.
pub proof fn lemma_lex_le_total(a: Seq<char>, b: Seq<char>)
    ensures
        lex_le(a, b) || lex_le(b, a),
    decreases a.len(),
{
    if a.len() > 0 && b.len() > 0 {
        if a[0] == b[0] {
            lemma_lex_le_total(a.subrange(1, a.len() as int), b.subrange(1, b.len() as int));
        } else {
            if (a[0] as u32) == (b[0] as u32) {
                lemma_char_cast_injective(a[0], b[0]);
            }
        }
    }
}

/// `lex_le` is antisymmetric: both directions only for equal sequences.
pub proof fn lemma_lex_le_antisymmetric(a: Seq<char>, b: Seq<char>)
    requires
        lex_le(a, b),
        lex_le(b, a),
    ensures
        a == b,
    decreases a.len(),
{
    if a.len() == 0 {
        assert(b.len() == 0);
        assert(a =~= b);
    } else {
        assert(b.len() > 0);
        assert(a[0] == b[0]);
        let a1 = a.subrange(1, a.len() as int);
        let b1 = b.subrange(1, b.len() as int);
        lemma_lex_le_antisymmetric(a1, b1);
        assert forall|i: int| 0 <= i < a.len() implies a[i] == b[i] by {
            if i > 0 {
                assert(a[i] == a1[i - 1]);
                assert(b[i] == b1[i - 1]);
            }
        }
        assert(a =~= b);
    }
}

/// Compare two string slices lexicographically by code point.
pub fn str_lex_le(a: &str, b: &str) -> (r: bool)
    ensures
        r == lex_le(a@, b@),
{
    let a_len: usize = a.unicode_len();
    let b_len: usize = b.unicode_len();
    let mut i: usize = 0;
    proof {
        assert(a@.subrange(0, a_len as int) =~= a@);
        assert(b@.subrange(0, b_len as int) =~= b@);
    }
    loop
        invariant
            i <= a_len,
            i <= b_len,
            a_len == a@.len(),
            b_len == b@.len(),
            lex_le(a@, b@) == lex_le(
                a@.subrange(i as int, a_len as int),
                b@.subrange(i as int, b_len as int),
            ),
        decreases a_len - i,
    {
        let ghost sa = a@.subrange(i as int, a_len as int);
        let ghost sb = b@.subrange(i as int, b_len as int);
        if i == a_len {
            assert(sa.len() == 0);
            return true;
        }
        if i == b_len {
            assert(sa.len() > 0 && sb.len() == 0);
            return false;
        }
        let ca = a.get_char(i);
        let cb = b.get_char(i);
        assert(sa[0] == a@[i as int] && sb[0] == b@[i as int]);
        if (ca as u32) != (cb as u32) {
            return (ca as u32) < (cb as u32);
        }
        proof {
            assert(sa.subrange(1, sa.len() as int) =~= a@.subrange(i + 1, a_len as int));
            assert(sb.subrange(1, sb.len() as int) =~= b@.subrange(i + 1, b_len as int));
        }
        i = i + 1;
    }
}

/// The lexicographically smaller of `a` and `b`.
pub open spec fn canonical_first(a: Seq<char>, b: Seq<char>) -> Seq<char> {
    if lex_le(a, b) {
        a
    } else {
        b
    }
}

/// The lexicographically larger of `a` and `b`.
pub open spec fn canonical_second(a: Seq<char>, b: Seq<char>) -> Seq<char> {
    if lex_le(a, b) {
        b
    } else {
        a
    }
}

/// Law: the canonical orientation of a pair does not depend on the order in
/// which its two distinct symbols are given. Two `SwapPair`s built from the
/// same symbols either way round are therefore equal field by field, and
/// their derived hashes agree.
pub proof fn lemma_swap_pair_symmetric(a: Seq<char>, b: Seq<char>)
    requires
        a != b,
    ensures
        canonical_first(a, b) == canonical_first(b, a),
        canonical_second(a, b) == canonical_second(b, a),
{
    lemma_lex_le_total(a, b);
    if lex_le(a, b) && lex_le(b, a) {
        lemma_lex_le_antisymmetric(a, b);
    }
}

/// An unordered pair of two distinct symbols, identifying a market. The
/// symbols are stored in lexicographic order, so pairs built from the same
/// two symbols compare and hash identically whichever way round they were
/// given. The stored first symbol is the market's canonical first symbol:
/// the asset that trades against the second.
#[derive(Debug, Eq, Hash, Clone)]
pub struct SwapPair(String, String);

impl SwapPair {
    /// The canonical first (lexicographically smaller) symbol.
    pub closed spec fn spec_first(&self) -> Seq<char> {
        self.0@
    }

    /// The canonical second (lexicographically larger) symbol.
    pub closed spec fn spec_second(&self) -> Seq<char> {
        self.1@
    }

    /// The pair holds two distinct symbols in canonical order.
    pub open spec fn wf(&self) -> bool {
        lex_le(self.spec_first(), self.spec_second()) && self.spec_first()
            != self.spec_second()
    }

    /// Build the pair for two distinct symbols, in either order.
    pub fn new(a: String, b: String) -> (p: SwapPair)
        requires
            a@ != b@,
        ensures
            p.spec_first() == canonical_first(a@, b@),
            p.spec_second() == canonical_second(a@, b@),
            p.wf(),
    {
        if str_lex_le(a.as_str(), b.as_str()) {
            SwapPair(a, b)
        } else {
            proof {
                lemma_lex_le_total(a@, b@);
            }
            SwapPair(b, a)
        }
    }

    pub fn first(&self) -> (s: &String)
        ensures
            s@ == self.spec_first(),
    {
        &self.0
    }

    pub fn second(&self) -> (s: &String)
        ensures
            s@ == self.spec_second(),
    {
        &self.1
    }

    /// Does `symbol` name one of the pair's two sides?
    pub fn has_symbol(&self, symbol: &String) -> (r: bool)
        ensures
            r == (symbol@ == self.spec_first() || symbol@ == self.spec_second()),
    {
        *symbol == self.0 || *symbol == self.1
    }
}

impl PartialEq for SwapPair {
    fn eq(&self, other: &SwapPair) -> (r: bool) {
        self.0 == other.0 && self.1 == other.1
    }
}

impl vstd::std_specs::cmp::PartialEqSpecImpl for SwapPair {
    open spec fn obeys_eq_spec() -> bool {
        true
    }

    open spec fn eq_spec(&self, other: &SwapPair) -> bool {
        self.spec_first() == other.spec_first() && self.spec_second() == other.spec_second()
    }
}

} // verus!
