//! Small verified string utilities used by the path deriver, the
//! transcoding selector and the download planner: prefix/suffix tests,
//! character-level equality, building character buffers, and removal of
//! characters that are illegal in file names.

use vstd::prelude::*;

verus! {

/// `p` is an initial segment of `s`.
pub open spec fn spec_has_prefix(s: Seq<char>, p: Seq<char>) -> bool {
    p.len() <= s.len() && s.take(p.len() as int) == p
}

/// `p` is a final segment of `s`.
pub open spec fn spec_has_suffix(s: Seq<char>, p: Seq<char>) -> bool {
    p.len() <= s.len() && s.skip(s.len() - p.len()) == p
}

/// The characters that are removed from titles and usernames before they
/// enter a file name, a fixed superset of what any supported filesystem
/// rejects.
pub open spec fn is_forbidden_char(c: char) -> bool {
    ||| c == '\\'
    ||| c == '|'
    ||| c == '/'
    ||| c == '<'
    ||| c == '>'
    ||| c == ':'
    ||| c == '"'
    ||| c == '?'
    ||| c == '*'
}

/// The predicate keeping the characters that survive sanitization.
pub open spec fn keep_char() -> spec_fn(char) -> bool {
    |c: char| !is_forbidden_char(c)
}

/// `s` with every forbidden character removed, order otherwise kept.
pub open spec fn spec_sanitized(s: Seq<char>) -> Seq<char> {
    s.filter(keep_char())
}

/// How `filter` treats one appended element.
pub proof fn lemma_filter_snoc<A>(s: Seq<A>, pred: spec_fn(A) -> bool, x: A)
    ensures
        s.push(x).filter(pred) == (if pred(x) {
            s.filter(pred).push(x)
        } else {
            s.filter(pred)
        }),
{
    reveal(Seq::filter);
    assert(s.push(x).drop_last() =~= s);
}

/// Filtering keeps nothing when the predicate rejects every element.
pub proof fn lemma_filter_none<A>(s: Seq<A>, pred: spec_fn(A) -> bool)
    requires
        forall|i: int| 0 <= i < s.len() ==> !pred(s[i]),
    ensures
        s.filter(pred) == Seq::<A>::empty(),
    decreases s.len(),
{
    reveal(Seq::filter);
    if s.len() > 0 {
        lemma_filter_none(s.drop_last(), pred);
    }
    assert(s.filter(pred) =~= Seq::<A>::empty());
}

/// Filtering keeps everything when the predicate accepts every element.
pub proof fn lemma_filter_all<A>(s: Seq<A>, pred: spec_fn(A) -> bool)
    requires
        forall|i: int| 0 <= i < s.len() ==> pred(s[i]),
    ensures
        s.filter(pred) == s,
    decreases s.len(),
{
    reveal(Seq::filter);
    if s.len() > 0 {
        lemma_filter_all(s.drop_last(), pred);
        assert(s.drop_last().filter(pred).push(s.last()) =~= s);
    } else {
        assert(s.filter(pred) =~= s);
    }
}

/// Filtering distributes over concatenation.
pub proof fn lemma_filter_app<A>(a: Seq<A>, b: Seq<A>, pred: spec_fn(A) -> bool)
    ensures
        (a + b).filter(pred) == a.filter(pred) + b.filter(pred),
    decreases b.len(),
{
    reveal(Seq::filter);
    if b.len() == 0 {
        assert(a + b =~= a);
        assert(a.filter(pred) + b.filter(pred) =~= a.filter(pred));
    } else {
        lemma_filter_app(a, b.drop_last(), pred);
        assert((a + b).drop_last() =~= a + b.drop_last());
        assert((a + b).last() == b.last());
        lemma_filter_snoc(b.drop_last(), pred, b.last());
        assert(b.drop_last().push(b.last()) =~= b);
        if pred(b.last()) {
            assert((a + b).filter(pred) =~= a.filter(pred) + b.filter(pred));
        } else {
            assert((a + b).filter(pred) =~= a.filter(pred) + b.filter(pred));
        }
    }
}

/// Whether `c` is removed by sanitization.
pub fn is_forbidden(c: char) -> (r: bool)
    ensures
        r == is_forbidden_char(c),
{
    c == '\\' || c == '|' || c == '/' || c == '<' || c == '>' || c == ':' || c == '"' || c == '?'
        || c == '*'
}

/// Character-wise string equality.
pub fn str_eq(a: &str, b: &str) -> (r: bool)
    ensures
        r == (a@ == b@),
{
    let na = a.unicode_len();
    let nb = b.unicode_len();
    if na != nb {
        assert(a@ != b@);
        return false;
    }
    let mut i: usize = 0;
    while i < na
        invariant
            0 <= i <= na,
            na == a@.len(),
            na == b@.len(),
            forall|j: int| 0 <= j < i ==> a@[j] == b@[j],
        decreases na - i,
    {
        if a.get_char(i) != b.get_char(i) {
            assert(a@ != b@);
            return false;
        }
        i += 1;
    }
    assert(a@ =~= b@);
    true
}

/// Does `s` start with `p`, character-wise.
pub fn str_has_prefix(s: &str, p: &str) -> (r: bool)
    ensures
        r == spec_has_prefix(s@, p@),
{
    let ns = s.unicode_len();
    let np = p.unicode_len();
    if np > ns {
        return false;
    }
    let mut i: usize = 0;
    while i < np
        invariant
            0 <= i <= np,
            np <= ns,
            ns == s@.len(),
            np == p@.len(),
            forall|j: int| 0 <= j < i ==> s@[j] == p@[j],
        decreases np - i,
    {
        if s.get_char(i) != p.get_char(i) {
            assert(s@.take(np as int)[i as int] != p@[i as int]);
            return false;
        }
        i += 1;
    }
    assert(s@.take(np as int) =~= p@);
    true
}

/// Does `s` end with `p`, character-wise.
pub fn str_has_suffix(s: &str, p: &str) -> (r: bool)
    ensures
        r == spec_has_suffix(s@, p@),
{
    let ns = s.unicode_len();
    let np = p.unicode_len();
    if np > ns {
        return false;
    }
    let base = ns - np;
    let mut i: usize = 0;
    while i < np
        invariant
            0 <= i <= np,
            np <= ns,
            ns == s@.len(),
            np == p@.len(),
            base == ns - np,
            forall|j: int| 0 <= j < i ==> s@[base + j] == p@[j],
        decreases np - i,
    {
        if s.get_char(base + i) != p.get_char(i) {
            assert(s@.skip(base as int)[i as int] != p@[i as int]);
            return false;
        }
        i += 1;
    }
    assert(s@.skip(base as int) =~= p@);
    true
}

/// Append the characters of `s` to `out`.
pub fn append_str_chars(out: Vec<char>, s: &str) -> (r: Vec<char>)
    ensures
        r@ == out@ + s@,
{
    let mut buf = out;
    let ghost start = buf@;
    let n = s.unicode_len();
    let mut i: usize = 0;
    while i < n
        invariant
            0 <= i <= n,
            n == s@.len(),
            buf@ == start + s@.take(i as int),
        decreases n - i,
    {
        let c = s.get_char(i);
        buf.push(c);
        proof {
            assert(s@.take(i as int).push(s@[i as int]) =~= s@.take(i + 1 as int));
            assert(buf@ =~= start + s@.take(i + 1 as int));
        }
        i += 1;
    }
    proof {
        assert(s@.take(n as int) =~= s@);
    }
    buf
}

/// Append the characters of `s` to `out`, dropping every forbidden one.
pub fn append_sanitized_chars(out: Vec<char>, s: &str) -> (r: Vec<char>)
    ensures
        r@ == out@ + spec_sanitized(s@),
{
    let mut buf = out;
    let ghost start = buf@;
    let ghost keep = keep_char();
    let n = s.unicode_len();
    let mut i: usize = 0;
    while i < n
        invariant
            0 <= i <= n,
            n == s@.len(),
            keep == keep_char(),
            buf@ == start + s@.take(i as int).filter(keep),
        decreases n - i,
    {
        let c = s.get_char(i);
        proof {
            lemma_filter_snoc(s@.take(i as int), keep, s@[i as int]);
            assert(s@.take(i as int).push(s@[i as int]) =~= s@.take(i + 1 as int));
        }
        if !is_forbidden(c) {
            buf.push(c);
            proof {
                assert(buf@ =~= start + s@.take(i + 1 as int).filter(keep));
            }
        }
        i += 1;
    }
    proof {
        assert(s@.take(n as int) =~= s@);
    }
    buf
}

/// Relies on `String::from_iter` over `char`s: the resulting string holds
/// exactly the given characters in order.
#[verifier::external_body]
pub fn string_from_chars(v: Vec<char>) -> (r: String)
    ensures
        r@ == v@,
{
    String::from_iter(v)
}

} // verus!
