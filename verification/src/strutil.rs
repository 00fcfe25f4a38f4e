//! Character-level string utilities: whitespace trimming, first-occurrence
//! search, prefix tests, equality and lexicographic comparison. These carry
//! the parser and the registry's deterministic ordering.

use vstd::prelude::*;

verus! {

/// The whitespace characters the trimming rules recognise.
pub open spec fn is_space(c: char) -> bool {
    c == ' ' || c == '\t' || c == '\r' || c == '\n'
}

/// Executable test mirroring [`is_space`].
pub fn is_space_char(c: char) -> (b: bool)
    ensures
        b == is_space(c),
{
    c == ' ' || c == '\t' || c == '\r' || c == '\n'
}

/// `s` with its leading whitespace removed.
pub open spec fn trim_start_spec(s: Seq<char>) -> Seq<char>
    decreases s.len(),
{
    if s.len() > 0 && is_space(s[0]) {
        trim_start_spec(s.drop_first())
    } else {
        s
    }
}

/// `s` with its trailing whitespace removed.
pub open spec fn trim_end_spec(s: Seq<char>) -> Seq<char>
    decreases s.len(),
{
    if s.len() > 0 && is_space(s.last()) {
        trim_end_spec(s.drop_last())
    } else {
        s
    }
}

/// `s` with whitespace removed from both ends.
pub open spec fn trim_spec(s: Seq<char>) -> Seq<char> {
    trim_end_spec(trim_start_spec(s))
}

/// The index of the first occurrence of `c` in `s`, or `s.len()` when `c`
/// does not occur.
pub open spec fn first_pos(s: Seq<char>, c: char) -> int
    decreases s.len(),
{
    if s.len() == 0 {
        0
    } else if s[0] == c {
        0
    } else {
        1 + first_pos(s.drop_first(), c)
    }
}

/// `first_pos` points at the first occurrence of `c`, and at `s.len()`
/// exactly when `c` is absent.
pub proof fn lemma_first_pos(s: Seq<char>, c: char)
    ensures
        0 <= first_pos(s, c) <= s.len(),
        first_pos(s, c) < s.len() ==> s[first_pos(s, c)] == c,
        forall|k: int| 0 <= k < first_pos(s, c) ==> s[k] != c,
    decreases s.len(),
{
    if s.len() > 0 && s[0] != c {
        lemma_first_pos(s.drop_first(), c);
        assert forall|k: int| 0 <= k < first_pos(s, c) implies s[k] != c by {
            if k > 0 {
                assert(s.drop_first()[k - 1] != c);
            }
        }
    }
}

/// Characterisation in the other direction: an occurrence at `i` with none
/// before it pins `first_pos` to `i`; `i == s.len()` covers absence.
pub proof fn lemma_first_pos_is(s: Seq<char>, c: char, i: int)
    requires
        0 <= i <= s.len(),
        forall|k: int| 0 <= k < i ==> s[k] != c,
        i < s.len() ==> s[i] == c,
    ensures
        first_pos(s, c) == i,
    decreases i,
{
    if s.len() == 0 {
    } else if i == 0 {
    } else {
        assert(s[0] != c);
        assert forall|k: int| 0 <= k < i - 1 implies s.drop_first()[k] != c by {
            assert(s[k + 1] != c);
        }
        if i < s.len() {
            assert(s.drop_first()[i - 1] == c);
        }
        lemma_first_pos_is(s.drop_first(), c, i - 1);
    }
}

/// Scan for the first occurrence of `c`; the result is `s.len()` when `c`
/// is absent, matching [`first_pos`].
pub fn find_char(s: &str, c: char) -> (r: usize)
    ensures
        r as int == first_pos(s@, c),
        r <= s@.len(),
{
    let len = s.unicode_len();
    let mut i: usize = 0;
    while i < len
        invariant
            0 <= i <= len,
            len == s@.len(),
            forall|k: int| 0 <= k < i ==> s@[k] != c,
        decreases len - i,
    {
        if s.get_char(i) == c {
            proof {
                lemma_first_pos_is(s@, c, i as int);
            }
            return i;
        }
        i += 1;
    }
    proof {
        lemma_first_pos_is(s@, c, len as int);
    }
    len
}

/// A run of leading whitespace shifts `trim_start_spec` past it.
proof fn lemma_trim_start_skip(s: Seq<char>, i: int)
    requires
        0 <= i <= s.len(),
        forall|k: int| 0 <= k < i ==> is_space(s[k]),
        i < s.len() ==> !is_space(s[i]),
    ensures
        trim_start_spec(s) == s.skip(i),
    decreases i,
{
    if i == 0 {
        assert(s.skip(0) =~= s);
        if s.len() > 0 {
            assert(!is_space(s[0]));
        }
    } else {
        assert(is_space(s[0]));
        assert forall|k: int| 0 <= k < i - 1 implies is_space(s.drop_first()[k]) by {
            assert(is_space(s[k + 1]));
        }
        if i < s.len() {
            assert(!is_space(s.drop_first()[i - 1]));
        }
        lemma_trim_start_skip(s.drop_first(), i - 1);
        assert(s.drop_first().skip(i - 1) =~= s.skip(i));
    }
}

/// A run of trailing whitespace shifts `trim_end_spec` before it.
proof fn lemma_trim_end_take(s: Seq<char>, j: int)
    requires
        0 <= j <= s.len(),
        forall|k: int| j <= k < s.len() ==> is_space(s[k]),
        j > 0 ==> !is_space(s[j - 1]),
    ensures
        trim_end_spec(s) == s.take(j),
    decreases s.len() - j,
{
    if j == s.len() {
        assert(s.take(j) =~= s);
        if s.len() > 0 {
            assert(!is_space(s.last()));
        }
    } else {
        assert(is_space(s.last()));
        lemma_trim_end_take(s.drop_last(), j);
        assert(s.drop_last().take(j) =~= s.take(j));
    }
}

/// Remove leading and trailing whitespace, as [`trim_spec`] describes.
pub fn trim<'a>(s: &'a str) -> (r: &'a str)
    ensures
        r@ == trim_spec(s@),
{
    let len = s.unicode_len();
    let mut i: usize = 0;
    while i < len && is_space_char(s.get_char(i))
        invariant
            0 <= i <= len,
            len == s@.len(),
            forall|k: int| 0 <= k < i ==> is_space(s@[k]),
        decreases len - i,
    {
        i += 1;
    }
    let mut j: usize = len;
    while j > i && is_space_char(s.get_char(j - 1))
        invariant
            i <= j <= len,
            len == s@.len(),
            forall|k: int| j <= k < len ==> is_space(s@[k]),
            forall|k: int| 0 <= k < i ==> is_space(s@[k]),
            i < len ==> !is_space(s@[i as int]),
        decreases j,
    {
        j -= 1;
    }
    let r = s.substring_char(i, j);
    proof {
        lemma_trim_start_skip(s@, i as int);
        if j == i {
            // Everything from `i` on is whitespace: the start-trimmed tail
            // is all whitespace, so the end trim removes it whole.
            lemma_trim_end_take(s@.skip(i as int), 0);
        } else {
            assert(!is_space(s@[j - 1]));
            assert forall|k: int| j - i <= k < s@.skip(i as int).len() implies is_space(
                s@.skip(i as int)[k],
            ) by {
                assert(is_space(s@[k + i]));
            }
            assert(!is_space(s@.skip(i as int)[j - i - 1]));
            lemma_trim_end_take(s@.skip(i as int), j - i);
        }
        assert(s@.skip(i as int).take(j - i) =~= s@.subrange(i as int, j as int));
    }
    r
}

/// How many whitespace characters `s` starts with.
pub open spec fn leading_space_count(s: Seq<char>) -> int
    decreases s.len(),
{
    if s.len() > 0 && is_space(s[0]) {
        1 + leading_space_count(s.drop_first())
    } else {
        0
    }
}

/// Where the trailing whitespace of `s` begins.
pub open spec fn trailing_space_start(s: Seq<char>) -> int
    decreases s.len(),
{
    if s.len() > 0 && is_space(s.last()) {
        trailing_space_start(s.drop_last())
    } else {
        s.len() as int
    }
}

/// Start-trimming removes exactly the run of leading whitespace.
pub proof fn lemma_trim_start_form(s: Seq<char>)
    ensures
        0 <= leading_space_count(s) <= s.len(),
        forall|k: int| 0 <= k < leading_space_count(s) ==> is_space(s[k]),
        leading_space_count(s) < s.len() ==> !is_space(s[leading_space_count(s)]),
        trim_start_spec(s) == s.skip(leading_space_count(s)),
    decreases s.len(),
{
    if s.len() > 0 && is_space(s[0]) {
        lemma_trim_start_form(s.drop_first());
        let c = leading_space_count(s);
        assert forall|k: int| 0 <= k < c implies is_space(s[k]) by {
            if k > 0 {
                assert(is_space(s.drop_first()[k - 1]));
            }
        }
        if c < s.len() {
            assert(!is_space(s.drop_first()[c - 1]));
        }
        assert(s.drop_first().skip(c - 1) =~= s.skip(c));
    } else {
        assert(s.skip(0) =~= s);
    }
}

/// End-trimming removes exactly the run of trailing whitespace.
pub proof fn lemma_trim_end_form(s: Seq<char>)
    ensures
        0 <= trailing_space_start(s) <= s.len(),
        forall|k: int| trailing_space_start(s) <= k < s.len() ==> is_space(s[k]),
        trailing_space_start(s) > 0 ==> !is_space(s[trailing_space_start(s) - 1]),
        trim_end_spec(s) == s.take(trailing_space_start(s)),
    decreases s.len(),
{
    if s.len() > 0 && is_space(s.last()) {
        lemma_trim_end_form(s.drop_last());
        let e = trailing_space_start(s);
        assert forall|k: int| e <= k < s.len() implies is_space(s[k]) by {
            if k < s.len() - 1 {
                assert(is_space(s.drop_last()[k]));
            }
        }
        assert(s.drop_last().take(e) =~= s.take(e));
    } else {
        assert(s.take(s.len() as int) =~= s);
    }
}

/// The two trims are idempotent and commute, so any order of trimming
/// reaches the same fully trimmed text.
pub proof fn lemma_trim_parts(s: Seq<char>)
    ensures
        trim_start_spec(trim_start_spec(s)) == trim_start_spec(s),
        trim_end_spec(trim_end_spec(s)) == trim_end_spec(s),
        trim_end_spec(trim_start_spec(s)) == trim_start_spec(trim_end_spec(s)),
        trim_spec(trim_start_spec(s)) == trim_spec(s),
        trim_spec(trim_end_spec(s)) == trim_spec(s),
{
    lemma_trim_start_form(s);
    lemma_trim_end_form(s);
    let c = leading_space_count(s);
    let e = trailing_space_start(s);
    // Idempotence of the start trim.
    if c < s.len() {
        assert(s.skip(c)[0] == s[c]);
    }
    assert(trim_start_spec(trim_start_spec(s)) == trim_start_spec(s));
    // Idempotence of the end trim.
    if e > 0 {
        assert(s.take(e).last() == s[e - 1]);
    }
    assert(trim_end_spec(trim_end_spec(s)) == trim_end_spec(s));
    // Commutation.
    if e == 0 {
        // All of `s` is whitespace: every order yields the empty text.
        if c < s.len() {
            assert(is_space(s[c]));
        }
        assert(c == s.len());
        assert(trim_start_spec(s) =~= Seq::<char>::empty());
        assert(trim_end_spec(trim_start_spec(s)) =~= Seq::<char>::empty());
        assert(trim_end_spec(s) =~= Seq::<char>::empty());
        assert(trim_start_spec(trim_end_spec(s)) =~= Seq::<char>::empty());
    } else {
        // Some character is hard: the leading run ends before the
        // trailing run begins, and both orders yield the middle.
        assert(!is_space(s[e - 1]));
        assert(c <= e - 1);
        assert(c < s.len());
        assert(!is_space(s[c]));
        assert forall|k: int| e - c <= k < s.skip(c).len() implies is_space(s.skip(c)[k]) by {
            assert(is_space(s[k + c]));
        }
        assert(!is_space(s.skip(c)[e - 1 - c]));
        lemma_trim_end_take(s.skip(c), e - c);
        assert(trim_end_spec(trim_start_spec(s)) == s.skip(c).take(e - c));
        assert forall|k: int| 0 <= k < c implies is_space(s.take(e)[k]) by {
            assert(is_space(s[k]));
        }
        assert(s.take(e)[c] == s[c]);
        lemma_trim_start_skip(s.take(e), c);
        assert(trim_start_spec(trim_end_spec(s)) == s.take(e).skip(c));
        assert(s.skip(c).take(e - c) =~= s.take(e).skip(c));
    }
    // The fully trimmed middle is itself a fixed point of the end trim.
    let m = trim_end_spec(trim_start_spec(s));
    if e > 0 {
        assert(m == s.skip(c).take(e - c));
        assert(m.last() == s[e - 1]);
    }
    assert(trim_end_spec(m) == m);
    assert(trim_spec(trim_start_spec(s)) == trim_spec(s));
    assert(trim_spec(trim_end_spec(s)) == trim_spec(s));
}

/// Trimming a line built around one non-space separator trims each side:
/// the left side loses its leading whitespace, the right side its
/// trailing whitespace.
pub proof fn lemma_trim_around_sep(a: Seq<char>, sep: char, b: Seq<char>)
    requires
        !is_space(sep),
    ensures
        trim_spec(a + seq![sep] + b) == trim_start_spec(a) + seq![sep] + trim_end_spec(b),
{
    let line = a + seq![sep] + b;
    lemma_trim_start_form(a);
    let c = leading_space_count(a);
    let tsa = trim_start_spec(a);
    assert forall|j: int| 0 <= j < c implies is_space(line[j]) by {
        assert(line[j] == a[j]);
    }
    if c < a.len() {
        assert(line[c] == a[c]);
    } else {
        assert(line[c] == sep);
    }
    lemma_trim_start_skip(line, c);
    assert(line.skip(c) =~= tsa + seq![sep] + b);
    lemma_trim_end_form(b);
    let e = trailing_space_start(b);
    let teb = trim_end_spec(b);
    let t1 = tsa + seq![sep] + b;
    let cut = tsa.len() as int + 1 + e;
    assert forall|j: int| cut <= j < t1.len() implies is_space(t1[j]) by {
        assert(t1[j] == b[j - tsa.len() - 1]);
    }
    if e > 0 {
        assert(t1[cut - 1] == b[e - 1]);
    } else {
        assert(t1[cut - 1] == sep);
    }
    lemma_trim_end_take(t1, cut);
    assert(t1.take(cut) =~= tsa + seq![sep] + teb);
    assert(trim_spec(line) == tsa + seq![sep] + teb);
}

/// Whether `p` is a prefix of `s`.
pub open spec fn has_prefix(s: Seq<char>, p: Seq<char>) -> bool {
    p.len() <= s.len() && s.take(p.len() as int) == p
}

/// Compare the first `p.len()` characters of `s` against `p`.
pub fn starts_with_str(s: &str, p: &str) -> (r: bool)
    ensures
        r == has_prefix(s@, p@),
{
    let slen = s.unicode_len();
    let plen = p.unicode_len();
    if plen > slen {
        return false;
    }
    let mut i: usize = 0;
    while i < plen
        invariant
            0 <= i <= plen <= slen,
            slen == s@.len(),
            plen == p@.len(),
            forall|k: int| 0 <= k < i ==> s@[k] == p@[k],
        decreases plen - i,
    {
        if s.get_char(i) != p.get_char(i) {
            assert(s@.take(plen as int)[i as int] != p@[i as int]);
            return false;
        }
        i += 1;
    }
    assert(s@.take(plen as int) =~= p@);
    true
}

/// Whether `suf` is a suffix of `s`.
pub open spec fn has_suffix(s: Seq<char>, suf: Seq<char>) -> bool {
    suf.len() <= s.len() && s.skip(s.len() - suf.len()) == suf
}

/// Compare the last `suf.len()` characters of `s` against `suf`.
pub fn ends_with_str(s: &str, suf: &str) -> (r: bool)
    ensures
        r == has_suffix(s@, suf@),
{
    let slen = s.unicode_len();
    let plen = suf.unicode_len();
    if plen > slen {
        return false;
    }
    let base = slen - plen;
    let mut i: usize = 0;
    while i < plen
        invariant
            0 <= i <= plen <= slen,
            base == slen - plen,
            slen == s@.len(),
            plen == suf@.len(),
            forall|k: int| 0 <= k < i ==> s@[base + k] == suf@[k],
        decreases plen - i,
    {
        if s.get_char(base + i) != suf.get_char(i) {
            assert(s@.skip(base as int)[i as int] != suf@[i as int]);
            return false;
        }
        i += 1;
    }
    assert(s@.skip(base as int) =~= suf@);
    true
}

/// Character-for-character equality of two strings.
pub fn str_eq(a: &str, b: &str) -> (r: bool)
    ensures
        r == (a@ == b@),
{
    let alen = a.unicode_len();
    let blen = b.unicode_len();
    if alen != blen {
        return false;
    }
    let mut i: usize = 0;
    while i < alen
        invariant
            0 <= i <= alen,
            alen == a@.len(),
            alen == b@.len(),
            forall|k: int| 0 <= k < i ==> a@[k] == b@[k],
        decreases alen - i,
    {
        if a.get_char(i) != b.get_char(i) {
            return false;
        }
        i += 1;
    }
    assert(a@ =~= b@);
    true
}

/// Lexicographic order on character sequences; for valid Unicode strings it
/// agrees with byte-wise UTF-8 order, since UTF-8 preserves code-point
/// order.
pub open spec fn lex_le(a: Seq<char>, b: Seq<char>) -> bool
    decreases a.len(),
{
    if a.len() == 0 {
        true
    } else if b.len() == 0 {
        false
    } else if (a[0] as u32) < (b[0] as u32) {
        true
    } else if (b[0] as u32) < (a[0] as u32) {
        false
    } else {
        lex_le(a.drop_first(), b.drop_first())
    }
}

/// Any two sequences are comparable under [`lex_le`].
pub proof fn lemma_lex_le_total(a: Seq<char>, b: Seq<char>)
    ensures
        lex_le(a, b) || lex_le(b, a),
    decreases a.len(),
{
    if a.len() > 0 && b.len() > 0 && !((a[0] as u32) < (b[0] as u32)) && !((b[0] as u32) < (
    a[0] as u32)) {
        lemma_lex_le_total(a.drop_first(), b.drop_first());
    }
}

/// [`lex_le`] is transitive.
pub proof fn lemma_lex_le_trans(a: Seq<char>, b: Seq<char>, c: Seq<char>)
    requires
        lex_le(a, b),
        lex_le(b, c),
    ensures
        lex_le(a, c),
    decreases a.len(),
{
    if a.len() > 0 && b.len() > 0 && c.len() > 0 && (a[0] as u32) == (b[0] as u32) && (
    b[0] as u32) == (c[0] as u32) {
        lemma_lex_le_trans(a.drop_first(), b.drop_first(), c.drop_first());
    }
}

/// Decide [`lex_le`] by scanning for the first differing character.
pub fn str_le(a: &str, b: &str) -> (r: bool)
    ensures
        r == lex_le(a@, b@),
{
    let alen = a.unicode_len();
    let blen = b.unicode_len();
    let mut i: usize = 0;
    proof {
        assert(a@.skip(0) =~= a@);
        assert(b@.skip(0) =~= b@);
    }
    loop
        invariant
            0 <= i <= alen,
            i <= blen,
            alen == a@.len(),
            blen == b@.len(),
            lex_le(a@, b@) == lex_le(a@.skip(i as int), b@.skip(i as int)),
        decreases alen - i,
    {
        if i >= alen {
            assert(a@.skip(i as int).len() == 0);
            return true;
        }
        if i >= blen {
            assert(b@.skip(i as int).len() == 0);
            return false;
        }
        let ca = a.get_char(i) as u32;
        let cb = b.get_char(i) as u32;
        if ca == cb {
            proof {
                assert(a@.skip(i as int).drop_first() =~= a@.skip(i + 1));
                assert(b@.skip(i as int).drop_first() =~= b@.skip(i + 1));
            }
            i += 1;
        } else {
            return ca < cb;
        }
    }
}

} // verus!
