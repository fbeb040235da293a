//! Character-level text handling shared by the request parsers and the
//! JSON writer: whitespace trimming, ASCII case folding, splitting,
//! searching, and number formatting/parsing.
use vstd::prelude::*;

verus! {

// ---------------------------------------------------------------------------
// Building and reading strings
// ---------------------------------------------------------------------------

/// Appends one character to a `String` (std's `String::push`).
/// Trusted: the new contents are the old contents followed by `c`.
#[verifier::external_body]
pub(crate) fn push_char(s: &mut String, c: char)
    ensures
        final(s)@ == old(s)@.push(c),
{
    s.push(c);
}

/// The characters of `s`, in order.
pub fn chars_of(s: &str) -> (v: Vec<char>)
    ensures
        v@ == s@,
{
    let mut v: Vec<char> = Vec::new();
    for c in it: s.chars()
        invariant
            v@ == it.seq().take(it.index() as int),
    {
        v.push(c);
    }
    v
}

/// A `String` holding `v[lo..hi]`.
pub fn string_from_range(v: &Vec<char>, lo: usize, hi: usize) -> (r: String)
    requires
        lo <= hi <= v.len(),
    ensures
        r@ == v@.subrange(lo as int, hi as int),
{
    let mut r = String::new();
    let mut i = lo;
    while i < hi
        invariant
            lo <= i <= hi <= v.len(),
            r@ == v@.subrange(lo as int, i as int),
        decreases hi - i,
    {
        push_char(&mut r, v[i]);
        i = i + 1;
    }
    r
}

/// A `String` holding all of `v`.
pub fn string_from_chars(v: &Vec<char>) -> (r: String)
    ensures
        r@ == v@,
{
    let r = string_from_range(v, 0, v.len());
    assert(v@.subrange(0, v@.len() as int) =~= v@);
    r
}

/// Appends the characters of `t` to `s`.
pub fn append_seq(s: &mut String, t: &Vec<char>)
    ensures
        final(s)@ == old(s)@ + t@,
{
    let mut i: usize = 0;
    while i < t.len()
        invariant
            i <= t.len(),
            s@ == old(s)@ + t@.subrange(0, i as int),
        decreases t.len() - i,
    {
        push_char(s, t[i]);
        i = i + 1;
        assert(old(s)@ + t@.subrange(0, i as int) =~= (old(s)@ + t@.subrange(0, i - 1)).push(
            t@[i - 1],
        ));
    }
    assert(t@.subrange(0, t@.len() as int) =~= t@);
}

/// Whether two character sequences are equal.
pub fn chars_equal(a: &Vec<char>, b: &Vec<char>) -> (r: bool)
    ensures
        r == (a@ == b@),
{
    if a.len() != b.len() {
        return false;
    }
    let mut i: usize = 0;
    while i < a.len()
        invariant
            a.len() == b.len(),
            i <= a.len(),
            forall|k: int| 0 <= k < i ==> a@[k] == b@[k],
        decreases a.len() - i,
    {
        if a[i] != b[i] {
            return false;
        }
        i = i + 1;
    }
    assert(a@ =~= b@);
    true
}

/// Whether the characters of `a` equal those of `b`.
pub fn str_equals(a: &Vec<char>, b: &str) -> (r: bool)
    ensures
        r == (a@ == b@),
{
    let bv = chars_of(b);
    chars_equal(a, &bv)
}

// ---------------------------------------------------------------------------
// Unicode whitespace and trimming
// ---------------------------------------------------------------------------

/// The characters with the Unicode `White_Space` property, which is what
/// `char::is_whitespace` tests.
pub open spec fn is_white_space(c: char) -> bool {
    let u = c as u32;
    ||| 0x09 <= u <= 0x0d
    ||| u == 0x20
    ||| u == 0x85
    ||| u == 0xa0
    ||| u == 0x1680
    ||| 0x2000 <= u <= 0x200a
    ||| u == 0x2028
    ||| u == 0x2029
    ||| u == 0x202f
    ||| u == 0x205f
    ||| u == 0x3000
}

pub fn is_white_space_char(c: char) -> (r: bool)
    ensures
        r == is_white_space(c),
{
    let u = c as u32;
    (0x09 <= u && u <= 0x0d) || u == 0x20 || u == 0x85 || u == 0xa0 || u == 0x1680 || (0x2000
        <= u && u <= 0x200a) || u == 0x2028 || u == 0x2029 || u == 0x202f || u == 0x205f || u
        == 0x3000
}

/// `s` without its leading whitespace.
pub open spec fn trim_start_seq(s: Seq<char>) -> Seq<char>
    decreases s.len(),
{
    if s.len() > 0 && is_white_space(s[0]) {
        trim_start_seq(s.drop_first())
    } else {
        s
    }
}

/// `s` without its trailing whitespace.
pub open spec fn trim_end_seq(s: Seq<char>) -> Seq<char>
    decreases s.len(),
{
    if s.len() > 0 && is_white_space(s.last()) {
        trim_end_seq(s.drop_last())
    } else {
        s
    }
}

/// `s` without leading and trailing whitespace (what `str::trim` gives).
pub open spec fn trim_seq(s: Seq<char>) -> Seq<char> {
    trim_end_seq(trim_start_seq(s))
}

proof fn lemma_trim_start_at(s: Seq<char>, i: int)
    requires
        0 <= i <= s.len(),
        forall|k: int| 0 <= k < i ==> is_white_space(#[trigger] s[k]),
        i == s.len() || !is_white_space(s[i]),
    ensures
        trim_start_seq(s) == s.subrange(i, s.len() as int),
    decreases i,
{
    if i == 0 {
        assert(s.subrange(0, s.len() as int) =~= s);
    } else {
        let t = s.drop_first();
        assert forall|k: int| 0 <= k < i - 1 implies is_white_space(#[trigger] t[k]) by {
            assert(t[k] == s[k + 1]);
        }
        assert(is_white_space(s[0]));
        lemma_trim_start_at(t, i - 1);
        assert(t.subrange(i - 1, t.len() as int) =~= s.subrange(i, s.len() as int));
    }
}

proof fn lemma_trim_end_at(s: Seq<char>, j: int)
    requires
        0 <= j <= s.len(),
        forall|k: int| j <= k < s.len() ==> is_white_space(#[trigger] s[k]),
        j == 0 || !is_white_space(s[j - 1]),
    ensures
        trim_end_seq(s) == s.subrange(0, j),
    decreases s.len() - j,
{
    if j == s.len() {
        assert(s.subrange(0, j) =~= s);
    } else {
        let t = s.drop_last();
        assert(is_white_space(s.last()));
        assert forall|k: int| j <= k < t.len() implies is_white_space(#[trigger] t[k]) by {
            assert(t[k] == s[k]);
        }
        if j > 0 {
            assert(t[j - 1] == s[j - 1]);
        }
        lemma_trim_end_at(t, j);
        assert(t.subrange(0, j) =~= s.subrange(0, j));
    }
}

/// Trimming takes off exactly the whitespace at both ends: when `s[..i]` and
/// `s[j..]` are whitespace and `s[i..j]` is empty or neither starts nor ends
/// with whitespace, `s` trimmed is `s[i..j]`.
pub proof fn law_trim_strips_ends(s: Seq<char>, i: int, j: int)
    requires
        0 <= i <= j <= s.len(),
        forall|k: int| 0 <= k < i ==> is_white_space(#[trigger] s[k]),
        forall|k: int| j <= k < s.len() ==> is_white_space(#[trigger] s[k]),
        i < j ==> !is_white_space(s[i]) && !is_white_space(s[j - 1]),
    ensures
        trim_seq(s) == s.subrange(i, j),
{
    if i < j {
        lemma_trim_start_at(s, i);
        let t = s.subrange(i, s.len() as int);
        assert forall|k: int| j - i <= k < t.len() implies is_white_space(#[trigger] t[k]) by {
            assert(t[k] == s[k + i]);
        }
        assert(t[j - i - 1] == s[j - 1]);
        lemma_trim_end_at(t, j - i);
        assert(t.subrange(0, j - i) =~= s.subrange(i, j));
    } else {
        assert forall|k: int| 0 <= k < s.len() implies is_white_space(#[trigger] s[k]) by {
            if k >= i {
                assert(k >= j);
            }
        }
        lemma_trim_start_at(s, s.len() as int);
        let t = s.subrange(s.len() as int, s.len() as int);
        lemma_trim_end_at(t, 0);
        assert(t.subrange(0, 0) =~= s.subrange(i, j));
    }
}

/// Bounds `(lo, hi)` such that `v[lo..hi]` is `v` trimmed.
pub fn trim_bounds(v: &Vec<char>) -> (r: (usize, usize))
    ensures
        r.0 <= r.1 <= v.len(),
        v@.subrange(r.0 as int, r.1 as int) == trim_seq(v@),
{
    let mut i: usize = 0;
    while i < v.len() && is_white_space_char(v[i])
        invariant
            i <= v.len(),
            forall|k: int| 0 <= k < i ==> is_white_space(#[trigger] v@[k]),
        decreases v.len() - i,
    {
        i = i + 1;
    }
    proof {
        lemma_trim_start_at(v@, i as int);
    }
    let ghost t = v@.subrange(i as int, v@.len() as int);
    let mut j: usize = v.len();
    while j > i && is_white_space_char(v[j - 1])
        invariant
            i <= j <= v.len(),
            t == v@.subrange(i as int, v@.len() as int),
            forall|k: int| j <= k < v.len() ==> is_white_space(#[trigger] v@[k]),
        decreases j,
    {
        j = j - 1;
    }
    proof {
        assert forall|k: int| j - i <= k < t.len() implies is_white_space(#[trigger] t[k]) by {
            assert(t[k] == v@[k + i]);
        }
        if j > i {
            assert(t[j - i - 1] == v@[j - 1]);
        }
        lemma_trim_end_at(t, j - i);
        assert(t.subrange(0, j - i) =~= v@.subrange(i as int, j as int));
    }
    (i, j)
}

/// `s` trimmed, as a new `String` (`str::trim`).
pub fn trim_str(s: &str) -> (r: String)
    ensures
        r@ == trim_seq(s@),
{
    let v = chars_of(s);
    let (lo, hi) = trim_bounds(&v);
    string_from_range(&v, lo, hi)
}

/// `v` trimmed, as a new character vector.
pub fn trim_chars(v: &Vec<char>) -> (r: Vec<char>)
    ensures
        r@ == trim_seq(v@),
{
    let (lo, hi) = trim_bounds(v);
    slice_chars(v, lo, hi)
}

/// `v[lo..hi]` as a new vector.
pub fn slice_chars(v: &Vec<char>, lo: usize, hi: usize) -> (r: Vec<char>)
    requires
        lo <= hi <= v.len(),
    ensures
        r@ == v@.subrange(lo as int, hi as int),
{
    let mut r: Vec<char> = Vec::new();
    let mut i = lo;
    while i < hi
        invariant
            lo <= i <= hi <= v.len(),
            r@ == v@.subrange(lo as int, i as int),
        decreases hi - i,
    {
        r.push(v[i]);
        i = i + 1;
    }
    r
}

/// `s` without its trailing `c` characters (`str::trim_end_matches` with a char).
pub open spec fn trim_end_char_seq(s: Seq<char>, c: char) -> Seq<char>
    decreases s.len(),
{
    if s.len() > 0 && s.last() == c {
        trim_end_char_seq(s.drop_last(), c)
    } else {
        s
    }
}

pub fn trim_end_char(v: &Vec<char>, c: char) -> (r: Vec<char>)
    ensures
        r@ == trim_end_char_seq(v@, c),
{
    let mut j: usize = v.len();
    assert(v@.subrange(0, v@.len() as int) =~= v@);
    while j > 0 && v[j - 1] == c
        invariant
            j <= v.len(),
            trim_end_char_seq(v@, c) == trim_end_char_seq(v@.subrange(0, j as int), c),
        decreases j,
    {
        proof {
            let s = v@.subrange(0, j as int);
            assert(s.drop_last() =~= v@.subrange(0, j - 1));
        }
        j = j - 1;
    }
    proof {
        let s = v@.subrange(0, j as int);
        assert(!(s.len() > 0 && s.last() == c));
    }
    slice_chars(v, 0, j)
}

// ---------------------------------------------------------------------------
// ASCII case folding
// ---------------------------------------------------------------------------

/// The code of `c` with ASCII upper-case letters mapped to lower case.
pub open spec fn ascii_fold(c: char) -> u32 {
    if 'A' <= c && c <= 'Z' {
        (c as u32 + 32) as u32
    } else {
        c as u32
    }
}

/// `c` with an ASCII upper-case letter turned to lower case.
pub open spec fn ascii_lower(c: char) -> char {
    if 'A' <= c && c <= 'Z' {
        ((c as u32) + 32) as char
    } else {
        c
    }
}

/// Whether every character of `s` is ASCII.
pub open spec fn is_ascii_chars(s: Seq<char>) -> bool {
    forall|i: int| 0 <= i < s.len() ==> (#[trigger] s[i] as u32) < 128
}

/// `s` with its ASCII upper-case letters turned to lower case.
pub open spec fn ascii_lowercase(s: Seq<char>) -> Seq<char> {
    s.map_values(|c: char| ascii_lower(c))
}

/// Two ASCII texts equal up to ASCII case have the same lower-case form.
pub proof fn lemma_ascii_lowercase_ignores_case(a: Seq<char>, b: Seq<char>)
    requires
        eq_ignore_ascii_case_seq(a, b),
    ensures
        ascii_lowercase(a) == ascii_lowercase(b),
{
    assert forall|i: int| 0 <= i < a.len() implies #[trigger] ascii_lowercase(a)[i] == ascii_lowercase(b)[i] by {
        assert(ascii_fold(a[i]) == ascii_fold(b[i]));
    }
    assert(ascii_lowercase(a) =~= ascii_lowercase(b));
}

/// Folding a character for case-insensitive comparison gives the code of its
/// ASCII lower-case form.
pub proof fn lemma_fold_is_lower(c: char)
    ensures
        ascii_fold(c) == ascii_lower(c) as u32,
{
}

/// Two texts are equal up to ASCII case exactly when their ASCII lower-case
/// forms are equal.
pub proof fn lemma_eq_ignore_case_iff_lowercase(a: Seq<char>, b: Seq<char>)
    ensures
        eq_ignore_ascii_case_seq(a, b) <==> ascii_lowercase(a) == ascii_lowercase(b),
{
    if eq_ignore_ascii_case_seq(a, b) {
        lemma_ascii_lowercase_ignores_case(a, b);
    }
    if ascii_lowercase(a) == ascii_lowercase(b) {
        assert(a.len() == ascii_lowercase(a).len());
        assert forall|i: int| 0 <= i < a.len() implies ascii_fold(#[trigger] a[i]) == ascii_fold(b[i]) by {
            assert(ascii_lowercase(a)[i] == ascii_lowercase(b)[i]);
            lemma_fold_is_lower(a[i]);
            lemma_fold_is_lower(b[i]);
        }
    }
}

/// For a name `lit` without ASCII capitals, a text lower-cases to `lit`
/// exactly when it equals `lit` up to ASCII case.
pub proof fn lemma_lowercases_to(f: Seq<char>, lit: Seq<char>)
    requires
        ascii_lowercase(lit) == lit,
    ensures
        (ascii_lowercase(f) == lit) <==> eq_ignore_ascii_case_seq(f, lit),
{
    lemma_eq_ignore_case_iff_lowercase(f, lit);
}

/// What `str::eq_ignore_ascii_case` decides.
pub open spec fn eq_ignore_ascii_case_seq(a: Seq<char>, b: Seq<char>) -> bool {
    &&& a.len() == b.len()
    &&& forall|i: int| 0 <= i < a.len() ==> ascii_fold(#[trigger] a[i]) == ascii_fold(b[i])
}

pub fn ascii_fold_char(c: char) -> (r: u32)
    ensures
        r == ascii_fold(c),
{
    if 'A' <= c && c <= 'Z' {
        c as u32 + 32
    } else {
        c as u32
    }
}

pub fn eq_ignore_ascii_case_chars(a: &Vec<char>, b: &Vec<char>) -> (r: bool)
    ensures
        r == eq_ignore_ascii_case_seq(a@, b@),
{
    if a.len() != b.len() {
        return false;
    }
    let mut i: usize = 0;
    while i < a.len()
        invariant
            a.len() == b.len(),
            i <= a.len(),
            forall|k: int| 0 <= k < i ==> ascii_fold(#[trigger] a@[k]) == ascii_fold(b@[k]),
        decreases a.len() - i,
    {
        if ascii_fold_char(a[i]) != ascii_fold_char(b[i]) {
            return false;
        }
        i = i + 1;
    }
    true
}

/// `str::eq_ignore_ascii_case`.
pub fn eq_ignore_ascii_case(a: &str, b: &str) -> (r: bool)
    ensures
        r == eq_ignore_ascii_case_seq(a@, b@),
{
    let av = chars_of(a);
    let bv = chars_of(b);
    eq_ignore_ascii_case_chars(&av, &bv)
}

// ---------------------------------------------------------------------------
// Splitting and searching
// ---------------------------------------------------------------------------

/// The pieces of `s` between occurrences of `sep` (`str::split` with a char):
/// `n` separators give `n + 1` pieces, some of them possibly empty.
pub open spec fn split_seq(s: Seq<char>, sep: char) -> Seq<Seq<char>>
    decreases s.len(),
{
    if s.len() == 0 {
        seq![Seq::<char>::empty()]
    } else {
        let p = split_seq(s.drop_last(), sep);
        if s.last() == sep {
            p.push(Seq::<char>::empty())
        } else {
            p.update(p.len() - 1, p.last().push(s.last()))
        }
    }
}

/// The parts joined back together with `sep` between neighbours.
pub open spec fn join_with(parts: Seq<Seq<char>>, sep: char) -> Seq<char>
    decreases parts.len(),
{
    if parts.len() == 0 {
        Seq::<char>::empty()
    } else if parts.len() == 1 {
        parts[0]
    } else {
        join_with(parts.drop_last(), sep) + seq![sep] + parts.last()
    }
}

proof fn lemma_join_extend_last(parts: Seq<Seq<char>>, sep: char, c: char)
    requires
        parts.len() > 0,
    ensures
        join_with(parts.update(parts.len() - 1, parts.last().push(c)), sep) == join_with(parts, sep).push(c),
{
    let u = parts.update(parts.len() - 1, parts.last().push(c));
    if parts.len() > 1 {
        assert(u.drop_last() =~= parts.drop_last());
        assert(join_with(u, sep) =~= join_with(parts, sep).push(c));
    }
}

/// Splitting at `sep`: the parts hold no `sep`, there is at least one, and
/// joining them back with `sep` gives the text again; so the parts are exactly
/// the stretches between separators, in order (what `str::split` gives).
pub proof fn law_split_rejoins(s: Seq<char>, sep: char)
    ensures
        split_seq(s, sep).len() >= 1,
        join_with(split_seq(s, sep), sep) == s,
        forall|i: int| 0 <= i < split_seq(s, sep).len() ==> !(#[trigger] split_seq(s, sep)[i]).contains(sep),
    decreases s.len(),
{
    if s.len() > 0 {
        let q = s.drop_last();
        law_split_rejoins(q, sep);
        let p = split_seq(q, sep);
        let r = split_seq(s, sep);
        if s.last() == sep {
            assert(r.drop_last() =~= p);
            assert(join_with(r, sep) =~= s);
            assert forall|i: int| 0 <= i < r.len() implies !(#[trigger] r[i]).contains(sep) by {
                if i < p.len() {
                    assert(r[i] == p[i]);
                }
            }
        } else {
            lemma_join_extend_last(p, sep, s.last());
            assert(s =~= q.push(s.last()));
            assert forall|i: int| 0 <= i < r.len() implies !(#[trigger] r[i]).contains(sep) by {
                if i < p.len() - 1 {
                    assert(r[i] == p[i]);
                } else {
                    let x = p.last();
                    assert(r[i] == x.push(s.last()));
                    if r[i].contains(sep) {
                        let k = choose|k: int| 0 <= k < r[i].len() && r[i][k] == sep;
                        assert(k < x.len());
                        assert(x[k] == sep);
                        assert(x.contains(sep));
                    }
                }
            }
        }
    }
}

proof fn lemma_split_append_plain(t: Seq<char>, l: Seq<char>, sep: char)
    requires
        !l.contains(sep),
    ensures
        split_seq(t + l, sep) == split_seq(t, sep).update(
            split_seq(t, sep).len() - 1,
            split_seq(t, sep).last() + l,
        ),
    decreases l.len(),
{
    law_split_rejoins(t, sep);
    let p = split_seq(t, sep);
    if l.len() == 0 {
        assert(t + l =~= t);
        assert(p.last() + l =~= p.last());
        assert(p.update(p.len() - 1, p.last() + l) =~= p);
    } else {
        let l2 = l.drop_last();
        assert(!l2.contains(sep)) by {
            if l2.contains(sep) {
                let k = choose|k: int| 0 <= k < l2.len() && l2[k] == sep;
                assert(l[k] == sep);
            }
        }
        lemma_split_append_plain(t, l2, sep);
        assert(l.last() != sep) by {
            assert(l[l.len() - 1] == l.last());
        }
        let tl = t + l;
        assert(tl.drop_last() =~= t + l2);
        assert(tl.last() == l.last());
        let q = split_seq(t + l2, sep);
        assert(q.last() == p.last() + l2);
        assert(q.last().push(l.last()) =~= p.last() + l);
        assert(split_seq(tl, sep) =~= p.update(p.len() - 1, p.last() + l));
    }
}

/// Joining parts that hold no `sep` with `sep` and splitting the result at
/// `sep` gives the parts back.
pub proof fn lemma_split_join(parts: Seq<Seq<char>>, sep: char)
    requires
        parts.len() >= 1,
        forall|i: int| 0 <= i < parts.len() ==> !(#[trigger] parts[i]).contains(sep),
    ensures
        split_seq(join_with(parts, sep), sep) == parts,
    decreases parts.len(),
{
    if parts.len() == 1 {
        let e = Seq::<char>::empty();
        lemma_split_append_plain(e, parts[0], sep);
        assert(e + parts[0] =~= parts[0]);
        assert(split_seq(e, sep) =~= seq![e]);
        assert(e + parts[0] =~= parts[0]);
        assert(split_seq(parts[0], sep) =~= parts);
    } else {
        let q = parts.drop_last();
        assert forall|i: int| 0 <= i < q.len() implies !(#[trigger] q[i]).contains(sep) by {
            assert(q[i] == parts[i]);
        }
        lemma_split_join(q, sep);
        let x = join_with(q, sep) + seq![sep];
        let xs = join_with(q, sep).push(sep);
        assert(x =~= xs);
        assert(xs.drop_last() =~= join_with(q, sep));
        law_split_rejoins(xs, sep);
        assert(split_seq(xs, sep) == q.push(Seq::<char>::empty()));
        assert(!parts.last().contains(sep)) by {
            assert(parts[parts.len() - 1] == parts.last());
        }
        lemma_split_append_plain(xs, parts.last(), sep);
        assert(Seq::<char>::empty() + parts.last() =~= parts.last());
        assert(join_with(parts, sep) == xs + parts.last());
        assert(q.push(Seq::<char>::empty()).update(q.len() as int, parts.last()) =~= parts);
    }
}

pub fn split_chars(v: &Vec<char>, sep: char) -> (r: Vec<Vec<char>>)
    ensures
        r.deep_view() == split_seq(v@, sep),
{
    let mut done: Vec<Vec<char>> = Vec::new();
    let mut cur: Vec<char> = Vec::new();
    let mut i: usize = 0;
    proof {
        assert(v@.subrange(0, 0) =~= Seq::<char>::empty());
        assert(done.deep_view().push(cur@) =~= split_seq(Seq::<char>::empty(), sep));
    }
    while i < v.len()
        invariant
            i <= v.len(),
            done.deep_view().push(cur@) == split_seq(v@.subrange(0, i as int), sep),
        decreases v.len() - i,
    {
        let c = v[i];
        proof {
            let s = v@.subrange(0, i + 1);
            assert(s.drop_last() =~= v@.subrange(0, i as int));
            assert(s.last() == c);
        }
        if c == sep {
            let ghost old_done = done.deep_view();
            let ghost old_cur = cur@;
            let ghost raw = done@;
            let ghost fin = cur;
            let finished = cur;
            cur = Vec::new();
            done.push(finished);
            proof {
                lemma_chars_deep_view(fin);
                assert(done@ == raw.push(fin));
                assert(done.deep_view() =~= old_done.push(old_cur)) by {
                    assert forall|k: int| 0 <= k < raw.len() implies #[trigger] done.deep_view()[k]
                        == old_done[k] by {
                        assert(done@[k] == raw[k]);
                    }
                }
                assert(done.deep_view().push(cur@) =~= old_done.push(old_cur).push(
                    Seq::<char>::empty(),
                ));
            }
        } else {
            let ghost old_done = done.deep_view();
            let ghost old_cur = cur@;
            cur.push(c);
            proof {
                let p = old_done.push(old_cur);
                assert(done.deep_view().push(cur@) =~= p.update(p.len() - 1, p.last().push(c)));
            }
        }
        i = i + 1;
    }
    proof {
        assert(v@.subrange(0, v@.len() as int) =~= v@);
    }
    let ghost before = done.deep_view();
    let ghost raw = done@;
    let ghost fin = cur;
    done.push(cur);
    proof {
        lemma_chars_deep_view(fin);
        assert(done@ == raw.push(fin));
        assert(done.deep_view() =~= before.push(fin@)) by {
            assert forall|k: int| 0 <= k < raw.len() implies #[trigger] done.deep_view()[k]
                == before[k] by {
                assert(done@[k] == raw[k]);
            }
        }
    }
    done
}

pub proof fn lemma_chars_deep_view(v: Vec<char>)
    ensures
        v.deep_view() == v@,
{
    assert(v.deep_view() =~= v@);
}

/// The position of the first `c` in `s`, if any.
pub open spec fn first_pos(s: Seq<char>, c: char) -> Option<int>
    decreases s.len(),
{
    if s.len() == 0 {
        None
    } else if s[0] == c {
        Some(0)
    } else {
        match first_pos(s.drop_first(), c) {
            Some(i) => Some(i + 1),
            None => None,
        }
    }
}

proof fn lemma_first_pos_found(s: Seq<char>, c: char, i: int)
    requires
        0 <= i < s.len(),
        s[i] == c,
        forall|k: int| 0 <= k < i ==> #[trigger] s[k] != c,
    ensures
        first_pos(s, c) == Some(i),
    decreases i,
{
    if i > 0 {
        let t = s.drop_first();
        assert forall|k: int| 0 <= k < i - 1 implies #[trigger] t[k] != c by {
            assert(t[k] == s[k + 1]);
        }
        assert(s[0] != c);
        lemma_first_pos_found(t, c, i - 1);
    }
}

proof fn lemma_first_pos_absent(s: Seq<char>, c: char)
    requires
        forall|k: int| 0 <= k < s.len() ==> #[trigger] s[k] != c,
    ensures
        first_pos(s, c) is None,
    decreases s.len(),
{
    if s.len() > 0 {
        let t = s.drop_first();
        assert forall|k: int| 0 <= k < t.len() implies #[trigger] t[k] != c by {
            assert(t[k] == s[k + 1]);
        }
        assert(s[0] != c);
        lemma_first_pos_absent(t, c);
    }
}

pub fn find_char(v: &Vec<char>, c: char) -> (r: Option<usize>)
    ensures
        match r {
            Some(i) => first_pos(v@, c) == Some(i as int) && i < v.len(),
            None => first_pos(v@, c) is None,
        },
{
    let mut i: usize = 0;
    while i < v.len()
        invariant
            i <= v.len(),
            forall|k: int| 0 <= k < i ==> #[trigger] v@[k] != c,
        decreases v.len() - i,
    {
        if v[i] == c {
            proof {
                lemma_first_pos_found(v@, c, i as int);
            }
            return Some(i);
        }
        i = i + 1;
    }
    proof {
        lemma_first_pos_absent(v@, c);
    }
    None
}

/// Whether `needle` occurs in `hay` starting at `i`.
pub open spec fn occurs_at(hay: Seq<char>, needle: Seq<char>, i: int) -> bool {
    0 <= i && i + needle.len() <= hay.len() && hay.subrange(i, i + needle.len()) == needle
}

/// The start of the first occurrence of `needle` in `hay` (`str::find` with a string,
/// counted in characters).
#[verifier::opaque]
pub open spec fn first_occurrence(hay: Seq<char>, needle: Seq<char>) -> Option<int> {
    if exists|i: int| occurs_at(hay, needle, i) {
        Some(
            choose|i: int|
                occurs_at(hay, needle, i) && forall|k: int| 0 <= k < i ==> !occurs_at(hay, needle, k),
        )
    } else {
        None
    }
}

fn occurs_at_exec(hay: &Vec<char>, needle: &Vec<char>, i: usize) -> (r: bool)
    requires
        i + needle.len() <= hay.len(),
    ensures
        r == occurs_at(hay@, needle@, i as int),
{
    let mut k: usize = 0;
    while k < needle.len()
        invariant
            i + needle.len() <= hay.len(),
            k <= needle.len(),
            forall|m: int| 0 <= m < k ==> hay@[i + m] == needle@[m],
        decreases needle.len() - k,
    {
        if hay[i + k] != needle[k] {
            proof {
                assert(hay@.subrange(i as int, i + needle.len())[k as int] != needle@[k as int]);
            }
            return false;
        }
        k = k + 1;
    }
    assert(hay@.subrange(i as int, i + needle.len()) =~= needle@);
    true
}

pub fn find_seq(hay: &Vec<char>, needle: &Vec<char>) -> (r: Option<usize>)
    ensures
        match r {
            Some(i) => first_occurrence(hay@, needle@) == Some(i as int) && occurs_at(
                hay@,
                needle@,
                i as int,
            ),
            None => first_occurrence(hay@, needle@) is None,
        },
{
    reveal(first_occurrence);
    if needle.len() > hay.len() {
        assert forall|i: int| !occurs_at(hay@, needle@, i) by {}
        return None;
    }
    let last = hay.len() - needle.len();
    let mut i: usize = 0;
    loop
        invariant_except_break
            last == hay.len() - needle.len(),
            i <= last,
            forall|k: int| 0 <= k < i ==> !occurs_at(hay@, needle@, k),
        ensures
            forall|k: int| 0 <= k <= last ==> !occurs_at(hay@, needle@, k),
        decreases last - i,
    {
        if occurs_at_exec(hay, needle, i) {
            proof {
                reveal(first_occurrence);
                let j = choose|j: int|
                    occurs_at(hay@, needle@, j) && forall|k: int|
                        0 <= k < j ==> !occurs_at(hay@, needle@, k);
                assert(occurs_at(hay@, needle@, i as int));
                if j < i {
                } else if j > i {
                    assert(!occurs_at(hay@, needle@, i as int));
                }
            }
            return Some(i);
        }
        if i == last {
            break;
        }
        i = i + 1;
    }
    assert forall|k: int| !occurs_at(hay@, needle@, k) by {
        if 0 <= k && k + needle@.len() <= hay@.len() {
            assert(k <= last);
        }
    }
    None
}

// ---------------------------------------------------------------------------
// Decimal numbers
// ---------------------------------------------------------------------------

pub open spec fn is_ascii_digit(c: char) -> bool {
    '0' <= c && c <= '9'
}

pub open spec fn digit_value(c: char) -> nat {
    (c as u32 - '0' as u32) as nat
}

/// The number written by the decimal digits `s`.
pub open spec fn decimal_value(s: Seq<char>) -> nat
    decreases s.len(),
{
    if s.len() == 0 {
        0
    } else {
        decimal_value(s.drop_last()) * 10 + digit_value(s.last())
    }
}

pub open spec fn all_ascii_digits(s: Seq<char>) -> bool {
    forall|i: int| 0 <= i < s.len() ==> is_ascii_digit(#[trigger] s[i])
}

/// What `str::parse::<u64>` accepts: an optional `+`, then one or more ASCII
/// digits whose value fits in a `u64`.
pub open spec fn parse_u64_seq(s: Seq<char>) -> Option<u64> {
    let d = if s.len() > 0 && s[0] == '+' {
        s.drop_first()
    } else {
        s
    };
    if d.len() > 0 && all_ascii_digits(d) && decimal_value(d) <= u64::MAX {
        Some(decimal_value(d) as u64)
    } else {
        None
    }
}

pub fn parse_u64_chars(s: &Vec<char>) -> (r: Option<u64>)
    ensures
        r == parse_u64_seq(s@),
{
    let start: usize = if s.len() > 0 && s[0] == '+' {
        1
    } else {
        0
    };
    let ghost d = if s@.len() > 0 && s@[0] == '+' {
        s@.drop_first()
    } else {
        s@
    };
    proof {
        assert(d =~= s@.subrange(start as int, s@.len() as int));
    }
    if start >= s.len() {
        return None;
    }
    let mut acc: u64 = 0;
    let mut overflow = false;
    let mut i: usize = start;
    while i < s.len()
        invariant
            start <= i <= s.len(),
            d == s@.subrange(start as int, s@.len() as int),
            d == (if s@.len() > 0 && s@[0] == '+' { s@.drop_first() } else { s@ }),
            all_ascii_digits(s@.subrange(start as int, i as int)),
            overflow ==> decimal_value(s@.subrange(start as int, i as int)) > u64::MAX,
            !overflow ==> acc == decimal_value(s@.subrange(start as int, i as int)),
        decreases s.len() - i,
    {
        let c = s[i];
        let ghost pre = s@.subrange(start as int, i as int);
        let ghost nxt = s@.subrange(start as int, i + 1);
        proof {
            assert(nxt.drop_last() =~= pre);
            assert(nxt.last() == c);
        }
        if !('0' <= c && c <= '9') {
            proof {
                assert(d[i - start] == c);
                assert(!is_ascii_digit(d[i - start]));
                assert(!all_ascii_digits(d));
            }
            return None;
        }
        let dv: u64 = (c as u32 - '0' as u32) as u64;
        if !overflow {
            match acc.checked_mul(10) {
                Some(m) => match m.checked_add(dv) {
                    Some(n) => {
                        acc = n;
                    },
                    None => {
                        overflow = true;
                    },
                },
                None => {
                    overflow = true;
                },
            }
        }
        proof {
            assert forall|k: int| 0 <= k < nxt.len() implies is_ascii_digit(#[trigger] nxt[k]) by {
                if k < pre.len() {
                    assert(nxt[k] == pre[k]);
                }
            }
        }
        i = i + 1;
    }
    proof {
        assert(s@.subrange(start as int, s@.len() as int) == d);
    }
    if overflow {
        None
    } else {
        Some(acc)
    }
}

pub open spec fn decimal_digit_char(d: nat) -> char {
    seq!['0', '1', '2', '3', '4', '5', '6', '7', '8', '9'][d as int]
}

/// The decimal digits of `n`, without leading zeros.
pub open spec fn nat_decimal(n: nat) -> Seq<char>
    decreases n,
{
    if n < 10 {
        seq![decimal_digit_char(n)]
    } else {
        nat_decimal(n / 10).push(decimal_digit_char(n % 10))
    }
}

/// The decimal form of `i`, with a leading `-` when it is negative.
pub open spec fn int_decimal(i: int) -> Seq<char> {
    if i < 0 {
        seq!['-'] + nat_decimal((-i) as nat)
    } else {
        nat_decimal(i as nat)
    }
}

fn decimal_digit(d: u64) -> (c: char)
    requires
        d < 10,
    ensures
        c == decimal_digit_char(d as nat),
{
    match d {
        0 => '0',
        1 => '1',
        2 => '2',
        3 => '3',
        4 => '4',
        5 => '5',
        6 => '6',
        7 => '7',
        8 => '8',
        _ => '9',
    }
}

fn nat_decimal_exec(n: u64) -> (r: Vec<char>)
    ensures
        r@ == nat_decimal(n as nat),
    decreases n,
{
    if n < 10 {
        let mut r = Vec::new();
        r.push(decimal_digit(n));
        assert(r@ =~= seq![decimal_digit_char(n as nat)]);
        r
    } else {
        let mut r = nat_decimal_exec(n / 10);
        r.push(decimal_digit(n % 10));
        r
    }
}

/// Appends the decimal form of `i` to `s`.
pub fn append_i32(s: &mut String, i: i32)
    ensures
        final(s)@ == old(s)@ + int_decimal(i as int),
{
    if i < 0 {
        push_char(s, '-');
        let m: u64 = (0i64 - (i as i64)) as u64;
        let v = nat_decimal_exec(m);
        append_seq(s, &v);
        assert(old(s)@ + int_decimal(i as int) =~= old(s)@.push('-') + nat_decimal(m as nat));
    } else {
        let v = nat_decimal_exec(i as u64);
        append_seq(s, &v);
    }
}

// ---------------------------------------------------------------------------
// Hexadecimal numbers
// ---------------------------------------------------------------------------

pub open spec fn hex_digit_char(d: nat) -> char {
    seq!['0', '1', '2', '3', '4', '5', '6', '7', '8', '9', 'a', 'b', 'c', 'd', 'e', 'f'][d as int]
}

/// The last `n` lower-case hexadecimal digits of `v`, zero-padded.
pub open spec fn hex_fixed(v: nat, n: nat) -> Seq<char>
    decreases n,
{
    if n == 0 {
        Seq::<char>::empty()
    } else {
        hex_fixed(v / 16, (n - 1) as nat).push(hex_digit_char(v % 16))
    }
}

/// The lower-case hexadecimal digit for `d`.
pub fn hex_digit(d: u64) -> (c: char)
    requires
        d < 16,
    ensures
        c == hex_digit_char(d as nat),
{
    match d {
        0 => '0',
        1 => '1',
        2 => '2',
        3 => '3',
        4 => '4',
        5 => '5',
        6 => '6',
        7 => '7',
        8 => '8',
        9 => '9',
        10 => 'a',
        11 => 'b',
        12 => 'c',
        13 => 'd',
        14 => 'e',
        _ => 'f',
    }
}

pub fn hex_fixed_exec(v: u64, n: usize) -> (r: Vec<char>)
    ensures
        r@ == hex_fixed(v as nat, n as nat),
    decreases n,
{
    if n == 0 {
        Vec::new()
    } else {
        let mut r = hex_fixed_exec(v / 16, n - 1);
        r.push(hex_digit(v % 16));
        r
    }
}

// ---------------------------------------------------------------------------
// First position satisfying a test
// ---------------------------------------------------------------------------

/// The position of the first character of `s` that passes `f`, or `s.len()`.
pub open spec fn first_where(s: Seq<char>, f: spec_fn(char) -> bool) -> int
    decreases s.len(),
{
    if s.len() == 0 {
        0
    } else if f(s[0]) {
        0
    } else {
        1 + first_where(s.drop_first(), f)
    }
}

pub proof fn lemma_first_where(s: Seq<char>, f: spec_fn(char) -> bool, i: int)
    requires
        0 <= i <= s.len(),
        forall|k: int| 0 <= k < i ==> !f(#[trigger] s[k]),
        i == s.len() || f(s[i]),
    ensures
        first_where(s, f) == i,
    decreases i,
{
    if i > 0 {
        let t = s.drop_first();
        assert forall|k: int| 0 <= k < i - 1 implies !f(#[trigger] t[k]) by {
            assert(t[k] == s[k + 1]);
        }
        assert(!f(s[0]));
        if i < s.len() {
            assert(t[i - 1] == s[i]);
        }
        lemma_first_where(t, f, i - 1);
    }
}

} // verus!
