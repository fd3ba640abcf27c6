//! Text helpers: views of strings as character sequences, and the string
//! operations that the rest of the crate is written with.
use vstd::prelude::*;

verus! {

// ── Views ────────────────────────────────────────────────────────────────────

/// The texts of a sequence of strings.
pub open spec fn views(v: Seq<String>) -> Seq<Seq<char>> {
    v.map_values(|s: String| s@)
}

/// The text of an optional string.
pub open spec fn opt_view(s: Option<String>) -> Option<Seq<char>> {
    match s {
        Some(x) => Some(x@),
        None => None,
    }
}

/// The text of an optional string slice.
pub open spec fn opt_str_view(s: Option<&str>) -> Option<Seq<char>> {
    match s {
        Some(x) => Some(x@),
        None => None,
    }
}

// ── Construction ─────────────────────────────────────────────────────────────

/// `String::push` appends one character at the end of the string.
pub assume_specification[ String::push ](s: &mut String, ch: char)
    ensures
        final(s)@ == old(s)@.push(ch),
;

/// The characters of `s`.
pub fn to_chars(s: &str) -> (out: Vec<char>)
    ensures
        out@ == s@,
{
    let mut out: Vec<char> = Vec::new();
    for c in it: s.chars()
        invariant
            out@ == it.seq().take(it.index() as int),
            it.seq() == s@,
    {
        out.push(c);
    }
    out
}

/// The text made of the characters `cs[from..to]`.
pub fn from_chars(cs: &Vec<char>, from: usize, to: usize) -> (out: String)
    requires
        from <= to <= cs@.len(),
    ensures
        out@ == cs@.subrange(from as int, to as int),
{
    let mut out = String::new();
    let mut i: usize = from;
    while i < to
        invariant
            from <= i <= to <= cs@.len(),
            out@ == cs@.subrange(from as int, i as int),
        decreases to - i,
    {
        out.push(cs[i]);
        i += 1;
    }
    out
}

/// A copy of an optional string.
pub fn clone_opt(s: &Option<String>) -> (out: Option<String>)
    ensures
        out == *s,
        opt_view(out) == opt_view(*s),
{
    match s {
        Some(x) => Some(x.clone()),
        None => None,
    }
}

/// A copy of a list of strings.
pub fn clone_strings(v: &Vec<String>) -> (out: Vec<String>)
    ensures
        out@ == v@,
        views(out@) == views(v@),
{
    let mut out: Vec<String> = Vec::new();
    let mut i: usize = 0;
    while i < v.len()
        invariant
            i <= v@.len(),
            out@ == v@.take(i as int),
        decreases v@.len() - i,
    {
        out.push(v[i].clone());
        i += 1;
    }
    assert(v@.take(i as int) == v@);
    out
}

/// An optional string borrowed as a slice.
pub fn opt_as_str(s: &Option<String>) -> (out: Option<&str>)
    ensures
        opt_str_view(out) == opt_view(*s),
{
    match s {
        Some(x) => Some(x.as_str()),
        None => None,
    }
}

/// `a` followed by `b`.
pub fn cat2(a: &str, b: &str) -> (out: String)
    ensures
        out@ == a@ + b@,
{
    let mut out = a.to_owned();
    out.append(b);
    out
}

/// `a`, `b` and `c` in a row.
pub fn cat3(a: &str, b: &str, c: &str) -> (out: String)
    ensures
        out@ == a@ + b@ + c@,
{
    let mut out = a.to_owned();
    out.append(b);
    out.append(c);
    out
}

/// `a`, `b`, `c` and `d` in a row.
pub fn cat4(a: &str, b: &str, c: &str, d: &str) -> (out: String)
    ensures
        out@ == a@ + b@ + c@ + d@,
{
    let mut out = a.to_owned();
    out.append(b);
    out.append(c);
    out.append(d);
    out
}

/// Five texts in a row.
pub fn cat5(a: &str, b: &str, c: &str, d: &str, e: &str) -> (out: String)
    ensures
        out@ == a@ + b@ + c@ + d@ + e@,
{
    let mut out = a.to_owned();
    out.append(b);
    out.append(c);
    out.append(d);
    out.append(e);
    out
}

// ── Comparison ───────────────────────────────────────────────────────────────

/// Whether two texts are the same.
pub fn same(a: &str, b: &str) -> (out: bool)
    ensures
        out == (a@ == b@),
{
    let x = a.to_owned();
    let y = b.to_owned();
    x == y
}

/// Whether two optional texts are the same.
pub fn same_opt(a: Option<&str>, b: Option<&str>) -> (out: bool)
    ensures
        out == (opt_str_view(a) == opt_str_view(b)),
{
    match (a, b) {
        (Some(x), Some(y)) => same(x, y),
        (None, None) => true,
        _ => false,
    }
}

/// Whether `v` holds the text `s`.
pub fn holds(v: &Vec<String>, s: &str) -> (out: bool)
    ensures
        out == views(v@).contains(s@),
{
    let mut i: usize = 0;
    while i < v.len()
        invariant
            i <= v@.len(),
            forall|k: int| 0 <= k < i ==> (#[trigger] v@[k])@ != s@,
        decreases v@.len() - i,
    {
        if same(v[i].as_str(), s) {
            assert(views(v@)[i as int] == s@);
            return true;
        }
        i += 1;
    }
    assert forall|k: int| 0 <= k < views(v@).len() implies views(v@)[k] != s@ by {
        assert(views(v@)[k] == v@[k]@);
    }
    false
}

/// Lexicographic order by code point, which is the order of strings by their
/// UTF-8 bytes.
pub open spec fn text_lt(a: Seq<char>, b: Seq<char>) -> bool
    decreases a.len(),
{
    if b.len() == 0 {
        false
    } else if a.len() == 0 {
        true
    } else if a[0] != b[0] {
        a[0] < b[0]
    } else {
        text_lt(a.skip(1), b.skip(1))
    }
}

pub proof fn lemma_text_lt_irreflexive(a: Seq<char>)
    ensures
        !text_lt(a, a),
    decreases a.len(),
{
    if a.len() > 0 {
        lemma_text_lt_irreflexive(a.skip(1));
    }
}

pub proof fn lemma_text_lt_transitive(a: Seq<char>, b: Seq<char>, c: Seq<char>)
    requires
        text_lt(a, b),
        text_lt(b, c),
    ensures
        text_lt(a, c),
    decreases a.len(),
{
    if a.len() > 0 && a[0] == b[0] && b[0] == c[0] {
        lemma_text_lt_transitive(a.skip(1), b.skip(1), c.skip(1));
    }
}

/// What lies between two texts is behind the first or before the second.
pub proof fn lemma_text_lt_between(a: Seq<char>, b: Seq<char>, c: Seq<char>)
    requires
        text_lt(a, c),
    ensures
        text_lt(a, b) || text_lt(b, c),
{
    lemma_text_lt_total(a, b);
    if text_lt(b, a) {
        lemma_text_lt_transitive(b, a, c);
    }
}

pub proof fn lemma_text_lt_total(a: Seq<char>, b: Seq<char>)
    ensures
        a == b || text_lt(a, b) || text_lt(b, a),
    decreases a.len(),
{
    if a.len() > 0 && b.len() > 0 && a[0] == b[0] {
        lemma_text_lt_total(a.skip(1), b.skip(1));
        if a.skip(1) == b.skip(1) {
            assert(a =~= seq![a[0]] + a.skip(1));
            assert(b =~= seq![b[0]] + b.skip(1));
        }
    } else if a.len() == 0 && b.len() == 0 {
        assert(a =~= b);
    }
}

/// Whether `a` sorts before `b`.
pub fn less(a: &str, b: &str) -> (out: bool)
    ensures
        out == text_lt(a@, b@),
{
    let x = to_chars(a);
    let y = to_chars(b);
    let mut i: usize = 0;
    assert(x@.skip(0) =~= x@);
    assert(y@.skip(0) =~= y@);
    while i < x.len() && i < y.len() && x[i] == y[i]
        invariant
            i <= x@.len(),
            i <= y@.len(),
            text_lt(x@, y@) == text_lt(x@.skip(i as int), y@.skip(i as int)),
        decreases x@.len() - i,
    {
        assert(x@.skip(i as int).skip(1) =~= x@.skip(i + 1));
        assert(y@.skip(i as int).skip(1) =~= y@.skip(i + 1));
        i += 1;
    }
    assert(i < x@.len() ==> x@.skip(i as int)[0] == x@[i as int]);
    assert(i < y@.len() ==> y@.skip(i as int)[0] == y@[i as int]);
    if i >= y.len() {
        false
    } else if i >= x.len() {
        true
    } else {
        x[i] < y[i]
    }
}

// ── White space ──────────────────────────────────────────────────────────────

/// The characters with the Unicode property `White_Space`.
pub open spec fn is_space(c: char) -> bool {
    ||| '\u{9}' <= c <= '\u{d}'
    ||| c == ' '
    ||| c == '\u{85}'
    ||| c == '\u{a0}'
    ||| c == '\u{1680}'
    ||| '\u{2000}' <= c <= '\u{200a}'
    ||| c == '\u{2028}'
    ||| c == '\u{2029}'
    ||| c == '\u{202f}'
    ||| c == '\u{205f}'
    ||| c == '\u{3000}'
}

/// Whether `c` is white space.
pub fn space(c: char) -> (out: bool)
    ensures
        out == is_space(c),
{
    ('\u{9}' <= c && c <= '\u{d}') || c == ' ' || c == '\u{85}' || c == '\u{a0}' || c
        == '\u{1680}' || ('\u{2000}' <= c && c <= '\u{200a}') || c == '\u{2028}' || c
        == '\u{2029}' || c == '\u{202f}' || c == '\u{205f}' || c == '\u{3000}'
}

/// `s` without the white space at its start.
pub open spec fn trim_start(s: Seq<char>) -> Seq<char>
    decreases s.len(),
{
    if s.len() > 0 && is_space(s[0]) {
        trim_start(s.skip(1))
    } else {
        s
    }
}

/// `s` without the white space at its end.
pub open spec fn trim_end(s: Seq<char>) -> Seq<char>
    decreases s.len(),
{
    if s.len() > 0 && is_space(s.last()) {
        trim_end(s.drop_last())
    } else {
        s
    }
}

/// `s` without the white space at either end.
pub open spec fn trim(s: Seq<char>) -> Seq<char> {
    trim_end(trim_start(s))
}

proof fn lemma_trim_start(s: Seq<char>, i: int)
    requires
        0 <= i <= s.len(),
        forall|k: int| 0 <= k < i ==> is_space(#[trigger] s[k]),
        i < s.len() ==> !is_space(s[i]),
    ensures
        trim_start(s) == s.skip(i),
    decreases i,
{
    if i == 0 {
        assert(s.skip(0) =~= s);
    } else {
        assert forall|k: int| 0 <= k < i - 1 implies is_space(#[trigger] s.skip(1)[k]) by {
            assert(s.skip(1)[k] == s[k + 1]);
        }
        lemma_trim_start(s.skip(1), i - 1);
        assert(s.skip(1).skip(i - 1) =~= s.skip(i));
    }
}

proof fn lemma_trim_end(s: Seq<char>, j: int)
    requires
        0 <= j <= s.len(),
        forall|k: int| j <= k < s.len() ==> is_space(#[trigger] s[k]),
        j > 0 ==> !is_space(s[j - 1]),
    ensures
        trim_end(s) == s.take(j),
    decreases s.len() - j,
{
    if j == s.len() {
        assert(s.take(j) =~= s);
    } else {
        assert(s.drop_last().take(j) =~= s.take(j));
        lemma_trim_end(s.drop_last(), j);
    }
}

/// `s` without the white space at either end.
pub fn trimmed(s: &str) -> (out: String)
    ensures
        out@ == trim(s@),
{
    let cs = to_chars(s);
    let mut i: usize = 0;
    while i < cs.len() && space(cs[i])
        invariant
            i <= cs@.len(),
            forall|k: int| 0 <= k < i ==> is_space(#[trigger] cs@[k]),
        decreases cs@.len() - i,
    {
        i += 1;
    }
    let mut j: usize = cs.len();
    while j > i && space(cs[j - 1])
        invariant
            i <= j <= cs@.len(),
            forall|k: int| j <= k < cs@.len() ==> is_space(#[trigger] cs@[k]),
        decreases j,
    {
        j -= 1;
    }
    proof {
        let t = cs@.skip(i as int);
        lemma_trim_start(cs@, i as int);
        assert forall|k: int| j - i <= k < t.len() implies is_space(#[trigger] t[k]) by {
            assert(t[k] == cs@[k + i]);
        }
        assert(j > i ==> t[j - i - 1] == cs@[j - 1]);
        lemma_trim_end(t, j - i);
        assert(t.take(j - i) =~= cs@.subrange(i as int, j as int));
    }
    from_chars(&cs, i, j)
}

/// A text without white space around it has none to lose, and white space at
/// neither end.
pub proof fn trim_is_idempotent(s: Seq<char>)
    ensures
        trim(trim(s)) == trim(s),
        trim(s).len() > 0 ==> !is_space(trim(s)[0]) && !is_space(trim(s).last()),
{
    lemma_trim_start_len(s);
    lemma_trim_end_ends(trim_start(s));
    lemma_trimmed(trim(s));
}

/// A text with white space at neither end is its own trimmed form.
pub proof fn lemma_trimmed(s: Seq<char>)
    requires
        s.len() > 0 ==> !is_space(s[0]) && !is_space(s.last()),
    ensures
        trim(s) == s,
{
}

proof fn lemma_trim_end_ends(s: Seq<char>)
    requires
        s.len() > 0 ==> !is_space(s[0]),
    ensures
        trim_end(s).len() > 0 ==> !is_space(trim_end(s)[0]) && !is_space(trim_end(s).last()),
    decreases s.len(),
{
    if s.len() > 0 && is_space(s.last()) {
        if s.len() > 1 {
            assert(s.drop_last()[0] == s[0]);
        }
        lemma_trim_end_ends(s.drop_last());
    }
}

/// The first word of `s`: its longest prefix without white space once leading
/// white space is gone.
pub open spec fn word(s: Seq<char>) -> Seq<char>
    decreases s.len(),
{
    if s.len() == 0 || is_space(s[0]) {
        Seq::empty()
    } else {
        seq![s[0]] + word(s.skip(1))
    }
}

proof fn lemma_word_len(s: Seq<char>)
    ensures
        word(s).len() <= s.len(),
        s.len() > 0 && !is_space(s[0]) ==> word(s).len() > 0,
    decreases s.len(),
{
    if s.len() > 0 && !is_space(s[0]) {
        lemma_word_len(s.skip(1));
    }
}

proof fn lemma_word(s: Seq<char>, n: int)
    requires
        0 <= n <= s.len(),
        forall|k: int| 0 <= k < n ==> !is_space(#[trigger] s[k]),
        n < s.len() ==> is_space(s[n]),
    ensures
        word(s) == s.take(n),
    decreases n,
{
    if n == 0 {
        assert(s.take(0) =~= Seq::<char>::empty());
    } else {
        assert forall|k: int| 0 <= k < n - 1 implies !is_space(#[trigger] s.skip(1)[k]) by {
            assert(s.skip(1)[k] == s[k + 1]);
        }
        lemma_word(s.skip(1), n - 1);
        assert(seq![s[0]] + s.skip(1).take(n - 1) =~= s.take(n));
    }
}

proof fn lemma_trim_start_len(s: Seq<char>)
    ensures
        trim_start(s).len() <= s.len(),
        trim_start(s).len() > 0 ==> !is_space(trim_start(s)[0]),
    decreases s.len(),
{
    if s.len() > 0 && is_space(s[0]) {
        lemma_trim_start_len(s.skip(1));
    }
}

/// The words of `s`: its maximal runs without white space, in order.
pub open spec fn words(s: Seq<char>) -> Seq<Seq<char>>
    decreases s.len(),
{
    let t = trim_start(s);
    if t.len() == 0 || t.len() > s.len() || word(t).len() == 0 || word(t).len() > t.len() {
        Seq::empty()
    } else {
        seq![word(t)] + words(t.skip(word(t).len() as int))
    }
}

/// The words of `s`, in order.
pub fn split_words(s: &str) -> (out: Vec<String>)
    ensures
        views(out@) == words(s@),
{
    let cs = to_chars(s);
    let mut out: Vec<String> = Vec::new();
    let mut p: usize = 0;
    assert(cs@.skip(0) =~= cs@);
    assert(views(out@) + words(cs@) =~= words(cs@));
    while p < cs.len()
        invariant
            p <= cs@.len(),
            cs@ == s@,
            views(out@) + words(cs@.skip(p as int)) == words(s@),
        decreases cs@.len() - p,
    {
        let ghost rest = cs@.skip(p as int);
        let mut i: usize = p;
        while i < cs.len() && space(cs[i])
            invariant
                p <= i <= cs@.len(),
                forall|k: int| p <= k < i ==> is_space(#[trigger] cs@[k]),
            decreases cs@.len() - i,
        {
            i += 1;
        }
        proof {
            assert forall|k: int| 0 <= k < i - p implies is_space(#[trigger] rest[k]) by {
                assert(rest[k] == cs@[k + p]);
            }
            lemma_trim_start(rest, i - p);
            assert(rest.skip(i - p) =~= cs@.skip(i as int));
        }
        if i == cs.len() {
            assert(words(rest) =~= Seq::<Seq<char>>::empty());
            p = i;
            assert(cs@.skip(p as int) =~= Seq::<char>::empty());
        } else {
            let ghost t = cs@.skip(i as int);
            let mut j: usize = i;
            while j < cs.len() && !space(cs[j])
                invariant
                    i <= j <= cs@.len(),
                    forall|k: int| i <= k < j ==> !is_space(#[trigger] cs@[k]),
                decreases cs@.len() - j,
            {
                j += 1;
            }
            proof {
                assert forall|k: int| 0 <= k < j - i implies !is_space(#[trigger] t[k]) by {
                    assert(t[k] == cs@[k + i]);
                }
                lemma_word(t, j - i);
                assert(t.take(j - i) =~= cs@.subrange(i as int, j as int));
                assert(t[0] == cs@[i as int]);
                lemma_word_len(t);
                assert(t.skip(j - i) =~= cs@.skip(j as int));
            }
            let w = from_chars(&cs, i, j);
            let ghost before = views(out@);
            out.push(w);
            proof {
                assert(views(out@) =~= before.push(w@));
                assert(before + (seq![w@] + words(cs@.skip(j as int))) =~= before.push(w@)
                    + words(cs@.skip(j as int)));
            }
            p = j;
        }
    }
    assert(cs@.skip(p as int) =~= Seq::<char>::empty());
    assert(words(Seq::<char>::empty()) =~= Seq::<Seq<char>>::empty());
    assert(views(out@) + Seq::<Seq<char>>::empty() =~= views(out@));
    out
}

// ── Prefixes and characters ──────────────────────────────────────────────────

/// Whether `s` begins with `p`.
pub fn starts_with(s: &str, p: &str) -> (out: bool)
    ensures
        out == p@.is_prefix_of(s@),
{
    let cs = to_chars(s);
    let ps = to_chars(p);
    if ps.len() > cs.len() {
        return false;
    }
    let mut i: usize = 0;
    while i < ps.len()
        invariant
            i <= ps@.len() <= cs@.len(),
            cs@ == s@,
            ps@ == p@,
            forall|k: int| 0 <= k < i ==> cs@[k] == ps@[k],
        decreases ps@.len() - i,
    {
        if cs[i] != ps[i] {
            assert(cs@.subrange(0, ps@.len() as int)[i as int] == cs@[i as int]);
            return false;
        }
        i += 1;
    }
    assert(ps@ =~= cs@.subrange(0, ps@.len() as int));
    true
}

/// Whether `s` ends with `p`.
pub fn ends_with(s: &str, p: &str) -> (out: bool)
    ensures
        out == p@.is_suffix_of(s@),
{
    let cs = to_chars(s);
    let ps = to_chars(p);
    if ps.len() > cs.len() {
        return false;
    }
    let off: usize = cs.len() - ps.len();
    let mut i: usize = 0;
    while i < ps.len()
        invariant
            i <= ps@.len() <= cs@.len(),
            cs@ == s@,
            ps@ == p@,
            cs@.len() == cs.len(),
            off == cs@.len() - ps@.len(),
            forall|k: int| 0 <= k < i ==> cs@[off + k] == ps@[k],
        decreases ps@.len() - i,
    {
        if cs[off + i] != ps[i] {
            assert(cs@.subrange(off as int, cs@.len() as int)[i as int] == cs@[off + i]);
            return false;
        }
        i += 1;
    }
    assert(ps@ =~= cs@.subrange(off as int, cs@.len() as int));
    true
}

/// What follows `p` in a text that begins with it.
pub open spec fn after_prefix(s: Seq<char>, p: Seq<char>) -> Option<Seq<char>> {
    if p.is_prefix_of(s) {
        Some(s.skip(p.len() as int))
    } else {
        None
    }
}

/// What follows `p` in `s`, if `s` begins with it.
pub fn strip_prefix(s: &str, p: &str) -> (out: Option<String>)
    ensures
        opt_view(out) == after_prefix(s@, p@),
{
    if starts_with(s, p) {
        let cs = to_chars(s);
        let ps = to_chars(p);
        let out = from_chars(&cs, ps.len(), cs.len());
        assert(out@ =~= s@.skip(p@.len() as int));
        Some(out)
    } else {
        None
    }
}

/// The index of the first `c` in `s`, or the length of `s` where there is none.
pub open spec fn first_index(s: Seq<char>, c: char) -> int
    decreases s.len(),
{
    if s.len() == 0 || s[0] == c {
        0
    } else {
        1 + first_index(s.skip(1), c)
    }
}

pub proof fn lemma_first_index(s: Seq<char>, c: char)
    ensures
        0 <= first_index(s, c) <= s.len(),
        first_index(s, c) < s.len() ==> s[first_index(s, c)] == c,
        forall|k: int| 0 <= k < first_index(s, c) ==> s[k] != c,
        s.contains(c) == (first_index(s, c) < s.len()),
    decreases s.len(),
{
    if s.len() > 0 && s[0] != c {
        lemma_first_index(s.skip(1), c);
        assert forall|k: int| 0 <= k < first_index(s, c) implies s[k] != c by {
            if k > 0 {
                assert(s.skip(1)[k - 1] == s[k]);
            }
        }
        if first_index(s, c) < s.len() {
            assert(s.skip(1)[first_index(s, c) - 1] == s[first_index(s, c)]);
        }
    } else if s.len() > 0 {
        assert(s[0] == c);
    }
}

proof fn lemma_first_index_is(s: Seq<char>, c: char, n: int)
    requires
        0 <= n <= s.len(),
        forall|k: int| 0 <= k < n ==> s[k] != c,
        n < s.len() ==> s[n] == c,
    ensures
        first_index(s, c) == n,
{
    lemma_first_index(s, c);
    let m = first_index(s, c);
    if m < n {
        assert(s[m] != c);
    } else if n < m {
        assert(s[n] != c);
    }
}

/// The index of the first `c` at or after `from`, or the length.
pub fn find_from(cs: &Vec<char>, from: usize, c: char) -> (out: usize)
    requires
        from <= cs@.len(),
    ensures
        from <= out <= cs@.len(),
        out == from + first_index(cs@.skip(from as int), c),
        forall|k: int| from <= k < out ==> cs@[k] != c,
        out < cs@.len() ==> cs@[out as int] == c,
{
    let mut i: usize = from;
    while i < cs.len() && cs[i] != c
        invariant
            from <= i <= cs@.len(),
            forall|k: int| from <= k < i ==> cs@[k] != c,
        decreases cs@.len() - i,
    {
        i += 1;
    }
    proof {
        let t = cs@.skip(from as int);
        assert forall|k: int| 0 <= k < i - from implies t[k] != c by {
            assert(t[k] == cs@[k + from]);
        }
        if i < cs@.len() {
            assert(t[i - from] == cs@[i as int]);
        }
        lemma_first_index_is(t, c, i - from);
    }
    i
}

/// Whether `s` has the character `c`.
pub fn has_char(s: &str, c: char) -> (out: bool)
    ensures
        out == s@.contains(c),
{
    let cs = to_chars(s);
    let n = find_from(&cs, 0, c);
    proof {
        assert(cs@.skip(0) =~= cs@);
        lemma_first_index(cs@, c);
    }
    n < cs.len()
}

/// The two sides of the first `c` in a text.
pub open spec fn halves(s: Seq<char>, c: char) -> Option<(Seq<char>, Seq<char>)> {
    if first_index(s, c) < s.len() {
        Some((s.take(first_index(s, c)), s.skip(first_index(s, c) + 1)))
    } else {
        None
    }
}

/// The texts of an optional pair of strings.
pub open spec fn opt_pair_view(p: Option<(String, String)>) -> Option<(Seq<char>, Seq<char>)> {
    match p {
        Some((a, b)) => Some((a@, b@)),
        None => None,
    }
}

/// The two sides of the first `c` in `s`.
pub fn split_once(s: &str, c: char) -> (out: Option<(String, String)>)
    ensures
        opt_pair_view(out) == halves(s@, c),
{
    let cs = to_chars(s);
    let n = find_from(&cs, 0, c);
    assert(cs@.skip(0) =~= cs@);
    if n < cs.len() {
        let a = from_chars(&cs, 0, n);
        let b = from_chars(&cs, n + 1, cs.len());
        assert(a@ =~= s@.take(n as int));
        assert(b@ =~= s@.skip(n + 1));
        Some((a, b))
    } else {
        None
    }
}

/// The pieces of `s` between the occurrences of `c`.
pub open spec fn split(s: Seq<char>, c: char) -> Seq<Seq<char>>
    decreases s.len(),
{
    let n = first_index(s, c);
    if 0 <= n < s.len() {
        seq![s.take(n)] + split(s.skip(n + 1), c)
    } else {
        seq![s]
    }
}

/// The pieces of `s` between the occurrences of `c`.
pub fn split_on(s: &str, c: char) -> (out: Vec<String>)
    ensures
        views(out@) == split(s@, c),
{
    let cs = to_chars(s);
    let mut out: Vec<String> = Vec::new();
    let mut p: usize = 0;
    let mut n: usize = find_from(&cs, 0, c);
    assert(cs@.skip(0) =~= cs@);
    assert(views(out@) + split(cs@, c) =~= split(cs@, c));
    while n < cs.len()
        invariant
            p <= n <= cs@.len(),
            cs@ == s@,
            n == p + first_index(cs@.skip(p as int), c),
            views(out@) + split(cs@.skip(p as int), c) == split(s@, c),
        decreases cs@.len() - n,
    {
        let w = from_chars(&cs, p, n);
        let ghost before = views(out@);
        out.push(w);
        proof {
            let rest = cs@.skip(p as int);
            assert(rest.take(n - p) =~= w@);
            assert(rest.skip(n - p + 1) =~= cs@.skip(n + 1));
            assert(views(out@) =~= before.push(w@));
            assert(before + (seq![w@] + split(cs@.skip(n + 1), c)) =~= before.push(w@) + split(
                cs@.skip(n + 1),
                c,
            ));
        }
        p = n + 1;
        n = find_from(&cs, p, c);
    }
    let w = from_chars(&cs, p, cs.len());
    let ghost before = views(out@);
    out.push(w);
    proof {
        assert(w@ =~= cs@.skip(p as int));
        assert(views(out@) =~= before + seq![w@]);
    }
    out
}

pub proof fn lemma_split_pieces(s: Seq<char>, c: char)
    ensures
        split(s, c).len() > 0,
        forall|i: int| 0 <= i < split(s, c).len() ==> !(#[trigger] split(s, c)[i]).contains(c),
        split(s, c)[0] == s.take(first_index(s, c)),
    decreases s.len(),
{
    lemma_first_index(s, c);
    let n = first_index(s, c);
    if n < s.len() {
        let rest = s.skip(n + 1);
        lemma_split_pieces(rest, c);
        assert forall|i: int| 0 <= i < split(s, c).len() implies !(#[trigger] split(
            s,
            c,
        )[i]).contains(c) by {
            if i == 0 {
                assert(split(s, c)[0] == s.take(n));
            } else {
                assert(split(s, c)[i] == split(rest, c)[i - 1]);
            }
        }
    } else {
        assert(s.take(n) =~= s);
    }
}

/// Splitting at `c` takes the piece behind a further `c` as one more piece.
pub proof fn lemma_split_append(a: Seq<char>, b: Seq<char>, c: char)
    requires
        !b.contains(c),
    ensures
        split(a + seq![c] + b, c) == split(a, c).push(b),
    decreases a.len(),
{
    let s = a + seq![c] + b;
    lemma_first_index(a, c);
    lemma_first_index(b, c);
    let n = first_index(a, c);
    assert forall|k: int| 0 <= k < n implies s[k] != c by {
        assert(s[k] == a[k]);
    }
    if n < a.len() {
        assert(s[n] == a[n]);
        lemma_first_index_is(s, c, n);
        assert(s.take(n) =~= a.take(n));
        assert(s.skip(n + 1) =~= a.skip(n + 1) + seq![c] + b);
        lemma_split_append(a.skip(n + 1), b, c);
        assert(split(s, c) =~= split(a, c).push(b));
    } else {
        assert(s[n] == c);
        lemma_first_index_is(s, c, n);
        assert(s.take(n) =~= a);
        assert(s.skip(n + 1) =~= b);
        assert(split(b, c) =~= seq![b]);
        assert(split(s, c) =~= seq![a].push(b));
    }
}

/// A line without the carriage return of its terminator.
pub open spec fn strip_return(s: Seq<char>) -> Seq<char> {
    if s.len() > 0 && s.last() == '\r' {
        s.drop_last()
    } else {
        s
    }
}

/// The lines of `s`: terminated by `\n` or `\r\n`, the last terminator
/// optional.
pub open spec fn lines(s: Seq<char>) -> Seq<Seq<char>>
    decreases s.len(),
{
    let n = first_index(s, '\n');
    if s.len() == 0 {
        Seq::empty()
    } else if 0 <= n < s.len() {
        seq![strip_return(s.take(n))] + lines(s.skip(n + 1))
    } else {
        seq![s]
    }
}

/// The lines of `s`.
pub fn split_lines(s: &str) -> (out: Vec<String>)
    ensures
        views(out@) == lines(s@),
{
    let cs = to_chars(s);
    let mut out: Vec<String> = Vec::new();
    let mut p: usize = 0;
    assert(cs@.skip(0) =~= cs@);
    assert(views(out@) + lines(cs@) =~= lines(cs@));
    while p < cs.len()
        invariant
            p <= cs@.len(),
            cs@ == s@,
            views(out@) + lines(cs@.skip(p as int)) == lines(s@),
        decreases cs@.len() - p,
    {
        let n = find_from(&cs, p, '\n');
        let ghost rest = cs@.skip(p as int);
        let ghost before = views(out@);
        if n < cs.len() {
            let end: usize = if n > p && cs[n - 1] == '\r' {
                n - 1
            } else {
                n
            };
            let w = from_chars(&cs, p, end);
            out.push(w);
            proof {
                assert(rest.take(n - p) =~= cs@.subrange(p as int, n as int));
                assert(strip_return(rest.take(n - p)) =~= w@);
                assert(rest.skip(n - p + 1) =~= cs@.skip(n + 1));
                assert(views(out@) =~= before.push(w@));
                assert(before + (seq![w@] + lines(cs@.skip(n + 1))) =~= before.push(w@) + lines(
                    cs@.skip(n + 1),
                ));
            }
            p = n + 1;
        } else {
            let w = from_chars(&cs, p, cs.len());
            out.push(w);
            proof {
                assert(w@ =~= rest);
                assert(views(out@) =~= before + seq![w@]);
                assert(cs@.skip(cs@.len() as int) =~= Seq::<char>::empty());
                assert(lines(Seq::<char>::empty()) =~= Seq::<Seq<char>>::empty());
                assert(views(out@) + Seq::<Seq<char>>::empty() =~= views(out@));
            }
            p = cs.len();
        }
    }
    assert(cs@.skip(p as int) =~= Seq::<char>::empty());
    assert(lines(Seq::<char>::empty()) =~= Seq::<Seq<char>>::empty());
    assert(views(out@) + Seq::<Seq<char>>::empty() =~= views(out@));
    out
}

/// The texts in a row, with `sep` between each two.
pub open spec fn join(parts: Seq<Seq<char>>, sep: Seq<char>) -> Seq<char>
    decreases parts.len(),
{
    if parts.len() == 0 {
        Seq::empty()
    } else if parts.len() == 1 {
        parts[0]
    } else {
        join(parts.drop_last(), sep) + sep + parts.last()
    }
}

/// Splitting at `c` undoes joining pieces that have no `c`.
pub proof fn lemma_split_join(parts: Seq<Seq<char>>, c: char)
    requires
        parts.len() > 0,
        forall|i: int| 0 <= i < parts.len() ==> !(#[trigger] parts[i]).contains(c),
    ensures
        split(join(parts, seq![c]), c) == parts,
    decreases parts.len(),
{
    if parts.len() == 1 {
        lemma_first_index(parts[0], c);
        assert(split(parts[0], c) =~= parts);
    } else {
        assert forall|i: int| 0 <= i < parts.drop_last().len() implies !(
        #[trigger] parts.drop_last()[i]).contains(c) by {
            assert(parts.drop_last()[i] == parts[i]);
        }
        lemma_split_join(parts.drop_last(), c);
        lemma_split_append(join(parts.drop_last(), seq![c]), parts.last(), c);
        assert(parts.drop_last().push(parts.last()) =~= parts);
    }
}

/// The texts in a row, with `sep` between each two.
pub fn joined(parts: &Vec<String>, sep: &str) -> (out: String)
    ensures
        out@ == join(views(parts@), sep@),
{
    let mut out = String::new();
    let mut i: usize = 0;
    assert(views(parts@).take(0) =~= Seq::<Seq<char>>::empty());
    while i < parts.len()
        invariant
            i <= parts@.len(),
            out@ == join(views(parts@).take(i as int), sep@),
        decreases parts@.len() - i,
    {
        proof {
            let t = views(parts@).take(i + 1);
            assert(t.drop_last() =~= views(parts@).take(i as int));
            assert(t.last() == parts@[i as int]@);
        }
        if i > 0 {
            out.append(sep);
        }
        out.append(parts[i].as_str());
        proof {
            assert(i == 0 ==> out@ =~= parts@[0]@);
        }
        i += 1;
    }
    assert(views(parts@).take(i as int) =~= views(parts@));
    out
}

// ── Letter case ──────────────────────────────────────────────────────────────

/// `c` with an ASCII capital made small.
pub open spec fn lower_char(c: char) -> char {
    if 'A' <= c <= 'Z' {
        (c as int + 32) as char
    } else {
        c
    }
}

/// `s` with its ASCII capitals made small.
pub open spec fn lower(s: Seq<char>) -> Seq<char> {
    s.map_values(|c: char| lower_char(c))
}

/// `c` with an ASCII capital made small.
pub fn lowercase_char(c: char) -> (out: char)
    ensures
        out == lower_char(c),
{
    if 'A' <= c && c <= 'Z' {
        let n: u8 = c as u8;
        (n + 32) as char
    } else {
        c
    }
}

/// `s` with its ASCII capitals made small.
pub fn lowercase(s: &str) -> (out: String)
    ensures
        out@ == lower(s@),
{
    let cs = to_chars(s);
    let mut out = String::new();
    let mut i: usize = 0;
    while i < cs.len()
        invariant
            i <= cs@.len(),
            out@ == lower(cs@.take(i as int)),
        decreases cs@.len() - i,
    {
        out.push(lowercase_char(cs[i]));
        assert(lower(cs@.take(i + 1)) =~= lower(cs@.take(i as int)).push(lower_char(cs@[i as int])));
        i += 1;
    }
    assert(cs@.take(i as int) =~= cs@);
    out
}

// ── Digits ───────────────────────────────────────────────────────────────────

/// The digit of value `d`, below sixteen.
pub open spec fn digit(d: int) -> char {
    if d < 10 {
        ('0' as int + d) as char
    } else {
        ('a' as int + (d - 10)) as char
    }
}

/// The digit of value `d`.
pub fn digit_char(d: u8) -> (out: char)
    requires
        d < 16,
    ensures
        out == digit(d as int),
{
    if d < 10 {
        (48 + d) as char
    } else {
        (87 + d) as char
    }
}

/// Whether `c` is a decimal digit.
pub open spec fn is_digit(c: char) -> bool {
    '0' <= c <= '9'
}

/// Whether `c` is a hexadecimal digit of either case.
pub open spec fn is_hex_digit(c: char) -> bool {
    is_digit(c) || 'a' <= c <= 'f' || 'A' <= c <= 'F'
}

/// Whether `c` is an ASCII letter or digit.
pub open spec fn is_alphanumeric(c: char) -> bool {
    is_digit(c) || 'a' <= c <= 'z' || 'A' <= c <= 'Z'
}

/// Whether `c` is a hexadecimal digit of either case.
pub fn hex_digit(c: char) -> (out: bool)
    ensures
        out == is_hex_digit(c),
{
    ('0' <= c && c <= '9') || ('a' <= c && c <= 'f') || ('A' <= c && c <= 'F')
}

/// Whether `c` is an ASCII letter or digit.
pub fn alphanumeric(c: char) -> (out: bool)
    ensures
        out == is_alphanumeric(c),
{
    ('0' <= c && c <= '9') || ('a' <= c && c <= 'z') || ('A' <= c && c <= 'Z')
}

/// `n` in decimal.
pub open spec fn decimal(n: nat) -> Seq<char>
    decreases n,
{
    if n < 10 {
        seq![digit(n as int)]
    } else {
        decimal(n / 10).push(digit((n % 10) as int))
    }
}

/// `n` in decimal.
pub fn decimal_text(n: u64) -> (out: String)
    ensures
        out@ == decimal(n as nat),
    decreases n,
{
    if n < 10 {
        let mut out = String::new();
        out.push(digit_char(n as u8));
        assert(out@ =~= seq![digit(n as int)]);
        out
    } else {
        let mut out = decimal_text(n / 10);
        out.push(digit_char((n % 10) as u8));
        out
    }
}

pub proof fn lemma_decimal_digits(n: nat)
    ensures
        decimal(n).len() > 0,
        forall|k: int| 0 <= k < decimal(n).len() ==> is_digit(#[trigger] decimal(n)[k]),
    decreases n,
{
    if n >= 10 {
        lemma_decimal_digits(n / 10);
    }
}

pub proof fn lemma_decimal_injective(a: nat, b: nat)
    requires
        decimal(a) == decimal(b),
    ensures
        a == b,
    decreases a,
{
    lemma_decimal_digits(a / 10);
    lemma_decimal_digits(b / 10);
    if a < 10 && b < 10 {
        assert(decimal(a)[0] == digit(a as int));
        assert(decimal(b)[0] == digit(b as int));
    } else if a >= 10 && b >= 10 {
        assert(decimal(a).drop_last() =~= decimal(a / 10));
        assert(decimal(b).drop_last() =~= decimal(b / 10));
        assert(decimal(a).last() == digit((a % 10) as int));
        assert(decimal(b).last() == digit((b % 10) as int));
        lemma_decimal_injective(a / 10, b / 10);
        assert(a % 10 == b % 10);
    } else if a < 10 {
        assert(decimal(b).len() == decimal(b / 10).len() + 1);
    } else {
        assert(decimal(a).len() == decimal(a / 10).len() + 1);
    }
}

/// Two texts that are split at the first `c` of each have the same two sides.
pub proof fn lemma_sides_unique(
    a: Seq<char>,
    x: Seq<char>,
    b: Seq<char>,
    y: Seq<char>,
    c: char,
)
    requires
        a + seq![c] + x == b + seq![c] + y,
        !a.contains(c),
        !b.contains(c),
    ensures
        a == b,
        x == y,
{
    let s = a + seq![c] + x;
    let t = b + seq![c] + y;
    if a.len() < b.len() {
        assert(s[a.len() as int] == c);
        assert(t[a.len() as int] == b[a.len() as int]);
    } else if b.len() < a.len() {
        assert(t[b.len() as int] == c);
        assert(s[b.len() as int] == a[b.len() as int]);
    }
    assert(a =~= s.take(a.len() as int));
    assert(b =~= t.take(b.len() as int));
    assert(x =~= s.skip(a.len() as int + 1));
    assert(y =~= t.skip(b.len() as int + 1));
}

/// The value of a row of decimal digits.
pub open spec fn value(s: Seq<char>) -> nat
    decreases s.len(),
{
    if s.len() == 0 {
        0
    } else {
        value(s.drop_last()) * 10 + (s.last() as int - '0' as int) as nat
    }
}

/// Whether `s` is a row of one or more decimal digits.
pub open spec fn is_digits(s: Seq<char>) -> bool {
    s.len() > 0 && forall|k: int| 0 <= k < s.len() ==> is_digit(#[trigger] s[k])
}

/// `s` without one leading plus sign.
pub open spec fn unsigned(s: Seq<char>) -> Seq<char> {
    if s.len() > 0 && s[0] == '+' {
        s.skip(1)
    } else {
        s
    }
}

/// The number that `s` spells, where it is at most `max`: decimal digits,
/// after an optional plus sign.
pub open spec fn number(s: Seq<char>, max: nat) -> Option<nat> {
    if is_digits(unsigned(s)) && value(unsigned(s)) <= max {
        Some(value(unsigned(s)))
    } else {
        None
    }
}

/// The value of a number that was read, as a mathematical integer.
pub open spec fn opt_nat(n: Option<u64>) -> Option<nat> {
    match n {
        Some(x) => Some(x as nat),
        None => None,
    }
}

/// The number that `s` spells, where it is at most `max`.
pub fn parse_number(s: &str, max: u64) -> (out: Option<u64>)
    ensures
        opt_nat(out) == number(s@, max as nat),
{
    let cs = to_chars(s);
    let start: usize = if cs.len() > 0 && cs[0] == '+' {
        1
    } else {
        0
    };
    let ghost t = unsigned(cs@);
    assert(t =~= cs@.skip(start as int));
    if start == cs.len() {
        return None;
    }
    let mut acc: u64 = 0;
    let mut over: bool = false;
    let mut i: usize = start;
    assert(t.take(0) =~= Seq::<char>::empty());
    while i < cs.len()
        invariant
            start <= i <= cs@.len(),
            start < cs@.len(),
            cs@ == s@,
            t == unsigned(s@),
            t == cs@.skip(start as int),
            forall|k: int| 0 <= k < i - start ==> is_digit(#[trigger] t[k]),
            !over ==> acc == value(t.take(i - start)) && acc <= max,
            over ==> value(t.take(i - start)) > max,
        decreases cs@.len() - i,
    {
        let c = cs[i];
        assert(t[i - start] == cs@[i as int]);
        if !('0' <= c && c <= '9') {
            assert(!is_digit(t[i - start]));
            return None;
        }
        let d: u64 = (c as u8 - 48) as u64;
        assert(t.take(i + 1 - start).drop_last() =~= t.take(i - start));
        if over || d > max || acc > max / 10 || acc * 10 > max - d {
            over = true;
        } else {
            acc = acc * 10 + d;
        }
        i += 1;
    }
    assert(t.take(i - start) =~= t);
    if over {
        None
    } else {
        Some(acc)
    }
}

/// A number in decimal reads as that number.
pub proof fn decimal_reads_back(n: nat, max: nat)
    requires
        n <= max,
    ensures
        number(decimal(n), max) == Some(n),
{
    lemma_decimal_digits(n);
    lemma_decimal_value(n);
    assert(is_digit(decimal(n)[0]));
}

proof fn lemma_decimal_value(n: nat)
    ensures
        value(decimal(n)) == n,
    decreases n,
{
    if n < 10 {
        let s = decimal(n);
        assert(s.drop_last() =~= Seq::<char>::empty());
        assert(value(s.drop_last()) == 0);
    } else {
        lemma_decimal_value(n / 10);
        assert(decimal(n).drop_last() =~= decimal(n / 10));
    }
}

/// The two lower-case hexadecimal digits of a byte.
pub open spec fn hex_byte(b: u8) -> Seq<char> {
    seq![digit((b / 16) as int), digit((b % 16) as int)]
}

/// The two lower-case hexadecimal digits of `b`.
pub fn hex_byte_text(b: u8) -> (out: String)
    ensures
        out@ == hex_byte(b),
{
    let mut out = String::new();
    out.push(digit_char(b / 16));
    out.push(digit_char(b % 16));
    assert(out@ =~= hex_byte(b));
    out
}

// ── Finding texts in texts ───────────────────────────────────────────────────

/// Where `p` first occurs in `s`.
pub open spec fn find_text(s: Seq<char>, p: Seq<char>) -> Option<int>
    decreases s.len(),
{
    if p.is_prefix_of(s) {
        Some(0int)
    } else if s.len() == 0 {
        None
    } else {
        match find_text(s.skip(1), p) {
            Some(i) => Some(i + 1),
            None => None,
        }
    }
}

/// The first occurrence of `p` is one, and no earlier place is.
pub proof fn lemma_find_text(s: Seq<char>, p: Seq<char>)
    ensures
        match find_text(s, p) {
            Some(i) => 0 <= i && i + p.len() <= s.len() && p.is_prefix_of(s.skip(i)) && forall|k: int|
                0 <= k < i ==> !p.is_prefix_of(#[trigger] s.skip(k)),
            None => forall|k: int| 0 <= k <= s.len() ==> !p.is_prefix_of(#[trigger] s.skip(k)),
        },
    decreases s.len(),
{
    assert(s.skip(0) =~= s);
    if !p.is_prefix_of(s) && s.len() > 0 {
        let t = s.skip(1);
        lemma_find_text(t, p);
        assert forall|k: int| 1 <= k <= s.len() implies #[trigger] s.skip(k) == t.skip(k - 1) by {
            assert(s.skip(k) =~= t.skip(k - 1));
        }
    }
}

/// Whether `p` stands in `cs` at `at`.
fn stands_at(cs: &Vec<char>, at: usize, p: &Vec<char>) -> (out: bool)
    requires
        at <= cs@.len(),
    ensures
        out == p@.is_prefix_of(cs@.skip(at as int)),
{
    let len = cs.len();
    if p.len() > len - at {
        return false;
    }
    let mut i: usize = 0;
    while i < p.len()
        invariant
            i <= p@.len(),
            len == cs@.len(),
            at + p@.len() <= len,
            forall|k: int| 0 <= k < i ==> p@[k] == cs@[at + k],
        decreases p@.len() - i,
    {
        if cs[at + i] != p[i] {
            assert(cs@.skip(at as int)[i as int] != p@[i as int]);
            return false;
        }
        i += 1;
    }
    assert(cs@.skip(at as int).subrange(0, p@.len() as int) =~= p@);
    true
}

/// Where `p` first occurs in `cs` at or behind `from`.
pub fn find_chars(cs: &Vec<char>, from: usize, p: &Vec<char>) -> (out: Option<usize>)
    requires
        from <= cs@.len(),
    ensures
        match out {
            Some(i) => from <= i <= cs@.len() && find_text(cs@.skip(from as int), p@) == Some(
                i - from,
            ),
            None => find_text(cs@.skip(from as int), p@) is None,
        },
{
    let ghost s = cs@.skip(from as int);
    let len = cs.len();
    let mut i: usize = from;
    assert(s.skip(0) =~= s);
    loop
        invariant
            from <= i <= cs@.len(),
            len == cs@.len(),
            s == cs@.skip(from as int),
            match find_text(s.skip(i - from), p@) {
                Some(k) => find_text(s, p@) == Some(k + (i - from)),
                None => find_text(s, p@) is None,
            },
        decreases cs@.len() - i,
    {
        assert(s.skip(i - from) =~= cs@.skip(i as int));
        if stands_at(cs, i, p) {
            return Some(i);
        }
        if i == len {
            return None;
        }
        assert(s.skip(i - from).skip(1) =~= s.skip(i + 1 - from));
        i += 1;
    }
}

/// The pieces of `s` between the occurrences of `p`.
pub open spec fn split_text(s: Seq<char>, p: Seq<char>) -> Seq<Seq<char>>
    decreases s.len(),
{
    match find_text(s, p) {
        Some(i) => if 0 <= i && 0 < p.len() && i + p.len() <= s.len() {
            seq![s.take(i)] + split_text(s.skip(i + p.len()), p)
        } else {
            seq![s]
        },
        None => seq![s],
    }
}

/// The pieces of `s` between the occurrences of `p`.
pub fn split_on_text(s: &str, p: &str) -> (out: Vec<String>)
    requires
        p@.len() > 0,
    ensures
        views(out@) == split_text(s@, p@),
{
    let cs = to_chars(s);
    let ps = to_chars(p);
    let mut out: Vec<String> = Vec::new();
    let mut at: usize = 0;
    let len = cs.len();
    assert(cs@.skip(0) =~= cs@);
    assert(views(out@) + split_text(cs@, p@) =~= split_text(cs@, p@));
    loop
        invariant
            at <= len,
            len == cs@.len(),
            cs@ == s@,
            ps@ == p@,
            p@.len() > 0,
            views(out@) + split_text(cs@.skip(at as int), p@) == split_text(s@, p@),
        decreases cs@.len() - at,
    {
        let ghost rest = cs@.skip(at as int);
        let ghost before = views(out@);
        proof {
            lemma_find_text(rest, p@);
        }
        match find_chars(&cs, at, &ps) {
            Some(i) => {
                let piece = from_chars(&cs, at, i);
                out.push(piece);
                let next: usize = i + ps.len();
                proof {
                    assert(rest.take(i - at) =~= piece@);
                    assert(rest.skip(i - at + p@.len()) =~= cs@.skip(next as int));
                    assert(views(out@) =~= before.push(piece@));
                    assert(before + (seq![piece@] + split_text(cs@.skip(next as int), p@))
                        =~= before.push(piece@) + split_text(cs@.skip(next as int), p@));
                }
                at = next;
            },
            None => {
                let piece = from_chars(&cs, at, cs.len());
                out.push(piece);
                proof {
                    assert(piece@ =~= rest);
                    assert(views(out@) =~= before + seq![piece@]);
                }
                return out;
            },
        }
    }
}

// ── Quotes ───────────────────────────────────────────────────────────────────

/// `s` without the `c` at its start.
pub open spec fn strip_start(s: Seq<char>, c: char) -> Seq<char>
    decreases s.len(),
{
    if s.len() > 0 && s[0] == c {
        strip_start(s.skip(1), c)
    } else {
        s
    }
}

/// `s` without the `c` at its end.
pub open spec fn strip_end(s: Seq<char>, c: char) -> Seq<char>
    decreases s.len(),
{
    if s.len() > 0 && s.last() == c {
        strip_end(s.drop_last(), c)
    } else {
        s
    }
}

/// `s` without the `c` at either end.
pub fn strip_char(s: &str, c: char) -> (out: String)
    ensures
        out@ == strip_end(strip_start(s@, c), c),
{
    let cs = to_chars(s);
    let mut a: usize = 0;
    assert(cs@.skip(0) =~= cs@);
    while a < cs.len() && cs[a] == c
        invariant
            a <= cs@.len(),
            cs@ == s@,
            strip_start(cs@.skip(a as int), c) == strip_start(s@, c),
        decreases cs@.len() - a,
    {
        assert(cs@.skip(a as int).skip(1) =~= cs@.skip(a + 1));
        a += 1;
    }
    let ghost rest = cs@.skip(a as int);
    assert(strip_start(s@, c) == rest);
    let mut b: usize = cs.len();
    assert(cs@.subrange(a as int, b as int) =~= rest);
    while a < b && cs[b - 1] == c
        invariant
            a <= b <= cs@.len(),
            strip_end(cs@.subrange(a as int, b as int), c) == strip_end(rest, c),
        decreases b,
    {
        assert(cs@.subrange(a as int, b as int).drop_last() =~= cs@.subrange(a as int, b - 1));
        b -= 1;
    }
    from_chars(&cs, a, b)
}

// ── Laws ─────────────────────────────────────────────────────────────────────

/// Whether a text is made of space alone.
pub open spec fn is_blank(s: Seq<char>) -> bool {
    forall|k: int| 0 <= k < s.len() ==> is_space(#[trigger] s[k])
}

/// Trimming takes away the space round a text, all of it and nothing else.
pub proof fn trimming_takes_the_space_round_a_text(
    before: Seq<char>,
    core: Seq<char>,
    behind: Seq<char>,
)
    requires
        is_blank(before),
        is_blank(behind),
        core.len() > 0 ==> !is_space(core[0]) && !is_space(core.last()),
    ensures
        trim(before + core + behind) == core,
{
    if core.len() == 0 {
        let whole = before + core + behind;
        assert forall|k: int| 0 <= k < whole.len() implies is_space(#[trigger] whole[k]) by {
            if k < before.len() {
                assert(whole[k] == before[k]);
            } else {
                assert(whole[k] == behind[k - before.len()]);
            }
        }
        lemma_blank_start(whole);
        assert(core =~= Seq::<char>::empty());
    } else {
        assert(before + core + behind =~= before + (core + behind));
        lemma_trim_start_of(before, core + behind);
        lemma_trim_end_of(core, behind);
    }
}

proof fn lemma_blank_start(s: Seq<char>)
    requires
        is_blank(s),
    ensures
        trim_start(s) == Seq::<char>::empty(),
    decreases s.len(),
{
    if s.len() > 0 {
        let rest = s.skip(1);
        assert forall|k: int| 0 <= k < rest.len() implies is_space(#[trigger] rest[k]) by {
            assert(rest[k] == s[k + 1]);
        }
        assert(is_space(s[0]));
        lemma_blank_start(rest);
    } else {
        assert(s =~= Seq::<char>::empty());
    }
}

proof fn lemma_trim_start_of(before: Seq<char>, rest: Seq<char>)
    requires
        is_blank(before),
        rest.len() > 0,
        !is_space(rest[0]),
    ensures
        trim_start(before + rest) == rest,
    decreases before.len(),
{
    if before.len() == 0 {
        assert(before + rest =~= rest);
    } else {
        let less = before.skip(1);
        assert forall|k: int| 0 <= k < less.len() implies is_space(#[trigger] less[k]) by {
            assert(less[k] == before[k + 1]);
        }
        assert(is_space(before[0]));
        assert((before + rest).skip(1) =~= less + rest);
        lemma_trim_start_of(less, rest);
    }
}

proof fn lemma_trim_end_of(rest: Seq<char>, behind: Seq<char>)
    requires
        is_blank(behind),
        rest.len() > 0,
        !is_space(rest.last()),
    ensures
        trim_end(rest + behind) == rest,
    decreases behind.len(),
{
    if behind.len() == 0 {
        assert(rest + behind =~= rest);
    } else {
        let less = behind.drop_last();
        assert forall|k: int| 0 <= k < less.len() implies is_space(#[trigger] less[k]) by {
            assert(less[k] == behind[k]);
        }
        assert(is_space(behind[behind.len() - 1]));
        assert((rest + behind).drop_last() =~= rest + less);
        lemma_trim_end_of(rest, less);
    }
}

/// A text falls apart at the first of a character.
pub proof fn texts_fall_apart_at_the_first(a: Seq<char>, c: char, b: Seq<char>)
    requires
        !a.contains(c),
    ensures
        halves(a + seq![c] + b, c) == Some((a, b)),
        halves(a, c) is None,
{
    let whole = a + seq![c] + b;
    lemma_first_index(whole, c);
    lemma_first_index(a, c);
    let n = first_index(whole, c);
    assert(whole[a.len() as int] == c);
    if n < a.len() {
        assert(a[n] == c);
    }
    assert(n == a.len()) by {
        if n > a.len() {
            assert(whole[a.len() as int] != c);
        }
    }
    assert(whole.take(n) =~= a);
    assert(whole.skip(n + 1) =~= b);
}

/// The first word of a text ends at the first space behind it, and space before a
/// word does not count.
pub proof fn words_end_at_space(space: Seq<char>, first: Seq<char>, rest: Seq<char>)
    requires
        is_blank(space),
        first.len() > 0,
        forall|k: int| 0 <= k < first.len() ==> !is_space(#[trigger] first[k]),
        rest.len() > 0 ==> is_space(rest[0]),
    ensures
        words(space + first + rest) == seq![first] + words(rest),
{
    let whole = space + first + rest;
    assert(whole =~= space + (first + rest));
    assert(!is_space(first[0]));
    lemma_trim_start_of(space, first + rest);
    lemma_word_of(first, rest);
    assert((first + rest).skip(first.len() as int) =~= rest);
}

proof fn lemma_word_of(first: Seq<char>, rest: Seq<char>)
    requires
        forall|k: int| 0 <= k < first.len() ==> !is_space(#[trigger] first[k]),
        rest.len() > 0 ==> is_space(rest[0]),
    ensures
        word(first + rest) == first,
    decreases first.len(),
{
    if first.len() == 0 {
        assert(first + rest =~= rest);
        assert(first =~= Seq::<char>::empty());
    } else {
        let less = first.skip(1);
        assert forall|k: int| 0 <= k < less.len() implies !is_space(#[trigger] less[k]) by {
            assert(less[k] == first[k + 1]);
        }
        assert(!is_space(first[0]));
        assert((first + rest).skip(1) =~= less + rest);
        lemma_word_of(less, rest);
        assert(seq![first[0]] + less =~= first);
    }
}

/// A text of space alone has no words.
pub proof fn blank_texts_have_no_words(s: Seq<char>)
    requires
        is_blank(s),
    ensures
        words(s).len() == 0,
        trim(s).len() == 0,
{
    lemma_blank_start(s);
}

/// Lines that were put together with line ends are what a text falls into.
pub proof fn lines_are_what_was_put_together(first: Seq<char>, rest: Seq<char>)
    requires
        !first.contains('\n'),
        first.len() > 0 ==> first.last() != '\r',
    ensures
        lines(first + seq!['\n'] + rest) == seq![first] + lines(rest),
        lines(first + seq!['\r', '\n'] + rest) == seq![first] + lines(rest),
        first.len() > 0 ==> lines(first) == seq![first],
{
    let whole = first + seq!['\n'] + rest;
    texts_fall_apart_at_the_first(first, '\n', rest);
    lemma_first_index(whole, '\n');
    lemma_first_index(first, '\n');
    assert(first_index(whole, '\n') == first.len()) by {
        let n = first_index(whole, '\n');
        assert(whole[first.len() as int] == '\n');
        if n < first.len() {
            assert(first[n] == '\n');
        }
    }
    assert(whole.take(first.len() as int) =~= first);
    assert(whole.skip(first.len() as int + 1) =~= rest);
    let ended = first.push('\r');
    let other = first + seq!['\r', '\n'] + rest;
    assert(!ended.contains('\n')) by {
        if ended.contains('\n') {
            let k = choose|k: int| 0 <= k < ended.len() && ended[k] == '\n';
            assert(first[k] == '\n');
        }
    }
    assert(other =~= ended + seq!['\n'] + rest);
    lemma_first_index(other, '\n');
    assert(first_index(other, '\n') == ended.len()) by {
        let n = first_index(other, '\n');
        assert(other[ended.len() as int] == '\n');
        if n < ended.len() {
            assert(ended[n] == '\n');
        }
    }
    assert(other.take(ended.len() as int) =~= ended);
    assert(other.skip(ended.len() as int + 1) =~= rest);
    assert(ended.drop_last() =~= first);
}

/// Lowering the letters of a text changes capital letters into small ones, and
/// nothing else; to do it twice is to do it once.
pub proof fn lowering_changes_capital_letters(s: Seq<char>, i: int)
    requires
        0 <= i < s.len(),
    ensures
        lower(s).len() == s.len(),
        'A' <= s[i] <= 'Z' ==> lower(s)[i] as int - 'a' as int == s[i] as int - 'A' as int,
        !('A' <= s[i] <= 'Z') ==> lower(s)[i] == s[i],
        lower(lower(s)) == lower(s),
{
    assert(lower(lower(s)) =~= lower(s)) by {
        assert forall|k: int| 0 <= k < s.len() implies lower_char(lower_char(s[k])) == lower_char(
            s[k],
        ) by {}
    }
}

/// A number reads only from digits, after at most one plus sign, and only as far as
/// it fits.
pub proof fn only_digits_read_as_numbers(s: Seq<char>, max: nat)
    ensures
        s.len() == 0 ==> number(s, max) is None,
        number(s, max) matches Some(n) ==> n <= max,
        (exists|k: int| 0 < k < s.len() && !is_digit(#[trigger] s[k])) ==> number(s, max) is None,
        s.len() > 0 && !is_digit(s[0]) && s[0] != '+' ==> number(s, max) is None,
        s.len() > 0 && is_digit(s[0]) && number(s, max) is Some ==> number(seq!['+'] + s, max)
            == number(s, max),
{
    if exists|k: int| 0 < k < s.len() && !is_digit(#[trigger] s[k]) {
        let k = choose|k: int| 0 < k < s.len() && !is_digit(#[trigger] s[k]);
        let t = unsigned(s);
        if t == s {
            assert(!is_digit(t[k]));
        } else {
            assert(t[k - 1] == s[k]);
        }
    }
    if s.len() > 0 && !is_digit(s[0]) && s[0] != '+' {
        assert(!is_digit(unsigned(s)[0]));
    }
    assert((seq!['+'] + s).skip(1) =~= s);
}

/// A decimal number that is too large for its place is not read.
pub proof fn numbers_that_do_not_fit_are_not_read(n: nat, max: nat)
    requires
        n > max,
    ensures
        number(decimal(n), max) is None,
{
    decimal_reads_back(n, n);
}

/// Different bytes are written differently in hexadecimal.
pub proof fn bytes_are_written_differently(a: u8, b: u8)
    ensures
        hex_byte(a) == hex_byte(b) <==> a == b,
{
    if hex_byte(a) == hex_byte(b) {
        assert(hex_byte(a)[0] == digit((a / 16) as int));
        assert(hex_byte(b)[0] == digit((b / 16) as int));
        assert(hex_byte(a)[1] == digit((a % 16) as int));
        assert(hex_byte(b)[1] == digit((b % 16) as int));
    }
}

/// A text is found in another one where it first begins.
pub proof fn texts_are_found_where_they_begin(a: Seq<char>, p: Seq<char>, b: Seq<char>)
    requires
        forall|k: int| 0 <= k < a.len() ==> !p.is_prefix_of(#[trigger] (a + p + b).skip(k)),
    ensures
        find_text(a + p + b, p) == Some(a.len() as int),
    decreases a.len(),
{
    let whole = a + p + b;
    if a.len() == 0 {
        assert(whole =~= p + b);
        assert((p + b).take(p.len() as int) =~= p);
    } else {
        let less = a.skip(1);
        assert(whole.skip(0) =~= whole);
        assert(!p.is_prefix_of(whole));
        assert(whole.skip(1) =~= less + p + b);
        assert forall|k: int| 0 <= k < less.len() implies !p.is_prefix_of(
            #[trigger] (less + p + b).skip(k),
        ) by {
            assert((less + p + b).skip(k) =~= whole.skip(k + 1));
        }
        texts_are_found_where_they_begin(less, p, b);
    }
}

} // verus!
