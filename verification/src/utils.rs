//! Shared helpers: the filename splitter and the display-name normalizer.

use vstd::prelude::*;
use vstd::string::*;

verus! {

// ---------------------------------------------------------------------------
// Filename splitter
// ---------------------------------------------------------------------------

/// Index of the last `'.'` in `s` at or before position `i`, or `-1` if there
/// is none.
pub open spec fn last_dot_from(s: Seq<char>, i: int) -> int
    recommends
        i < s.len(),
    decreases i + 1,
{
    if i < 0 {
        -1
    } else if s[i] == '.' {
        i
    } else {
        last_dot_from(s, i - 1)
    }
}

/// Index of the last `'.'` in `s`, or `-1` if `s` holds no dot.
pub open spec fn last_dot(s: Seq<char>) -> int {
    last_dot_from(s, s.len() - 1)
}

/// Whether splitting `s` yields an extension, i.e. `s` holds at least one dot.
pub open spec fn has_ext(s: Seq<char>) -> bool {
    last_dot(s) >= 0
}

/// The stem of `s`: everything before the last dot, or all of `s` when there
/// is no dot.
pub open spec fn stem_of(s: Seq<char>) -> Seq<char> {
    if has_ext(s) {
        s.subrange(0, last_dot(s))
    } else {
        s
    }
}

/// The extension of `s`: the last dot and everything after it.
pub open spec fn ext_of(s: Seq<char>) -> Seq<char>
    recommends
        has_ext(s),
{
    s.subrange(last_dot(s), s.len() as int)
}

proof fn lemma_last_dot_from(s: Seq<char>, i: int)
    requires
        -1 <= i < s.len(),
    ensures
        -1 <= last_dot_from(s, i) <= i,
        last_dot_from(s, i) >= 0 ==> s[last_dot_from(s, i)] == '.',
    decreases i + 1,
{
    if i >= 0 && s[i] != '.' {
        lemma_last_dot_from(s, i - 1);
    }
}

/// Splitting a name with at least one dot and rejoining stem and extension
/// gives back the name exactly.
pub proof fn lemma_split_rejoin(s: Seq<char>)
    requires
        has_ext(s),
    ensures
        stem_of(s) + ext_of(s) == s,
{
    lemma_last_dot_from(s, s.len() - 1);
    assert(stem_of(s) + ext_of(s) =~= s);
}

/// Splits a file path into its stem and, when the path holds at least one
/// dot, the extension: the last dot with everything after it.
pub fn cap_filename_ext(file_path: &str) -> (r: (String, Option<String>))
    ensures
        r.0@ == stem_of(file_path@),
        has_ext(file_path@) ==> (r.1 matches Some(e) && e@ == ext_of(file_path@)),
        !has_ext(file_path@) ==> r.1 is None,
{
    let n = file_path.unicode_len();
    let mut i: usize = n;
    while i > 0
        invariant
            i <= n,
            n == file_path@.len(),
            last_dot(file_path@) == last_dot_from(file_path@, i as int - 1),
        decreases i,
    {
        if file_path.get_char(i - 1) == '.' {
            let stem = file_path.substring_char(0, i - 1).to_owned();
            let ext = file_path.substring_char(i - 1, n).to_owned();
            return (stem, Some(ext));
        }
        i = i - 1;
    }
    (file_path.to_owned(), None)
}

// ---------------------------------------------------------------------------
// Name normalizer
// ---------------------------------------------------------------------------

/// The separator characters that the normalizer collapses into spaces.
pub open spec fn is_sep(c: char) -> bool {
    c == '.' || c == '-' || c == ' '
}

/// The characters that trimming removes at either end: the Unicode
/// white-space set.
pub open spec fn is_space(c: char) -> bool {
    ||| c == ' '
    ||| ('\u{09}' <= c && c <= '\u{0D}')
    ||| c == '\u{85}'
    ||| c == '\u{A0}'
    ||| c == '\u{1680}'
    ||| ('\u{2000}' <= c && c <= '\u{200A}')
    ||| c == '\u{2028}'
    ||| c == '\u{2029}'
    ||| c == '\u{202F}'
    ||| c == '\u{205F}'
    ||| c == '\u{3000}'
}

/// Replaces every maximal run of separator characters with a single space.
/// Each run's last separator emits the space; the others are dropped.
pub open spec fn collapse(s: Seq<char>) -> Seq<char>
    decreases s.len(),
{
    if s.len() == 0 {
        Seq::empty()
    } else if is_sep(s[0]) {
        if s.len() > 1 && is_sep(s[1]) {
            collapse(s.drop_first())
        } else {
            seq![' '] + collapse(s.drop_first())
        }
    } else {
        seq![s[0]] + collapse(s.drop_first())
    }
}

/// Removes leading white space.
pub open spec fn trim_start(s: Seq<char>) -> Seq<char>
    decreases s.len(),
{
    if s.len() > 0 && is_space(s[0]) {
        trim_start(s.drop_first())
    } else {
        s
    }
}

/// Removes trailing white space.
pub open spec fn trim_end(s: Seq<char>) -> Seq<char>
    decreases s.len(),
{
    if s.len() > 0 && is_space(s.last()) {
        trim_end(s.drop_last())
    } else {
        s
    }
}

/// The normalized form of `s`: separator runs collapsed to single spaces,
/// then white space trimmed from both ends.
pub open spec fn normalize(s: Seq<char>) -> Seq<char> {
    trim_end(trim_start(collapse(s)))
}

/// Whether `s` is in collapsed form: every separator it holds is a single
/// space not followed by another separator.
spec fn collapsed(s: Seq<char>) -> bool {
    forall|i: int|
        #![trigger s[i]]
        0 <= i < s.len() ==> (is_sep(s[i]) ==> (s[i] == ' ' && (i + 1 < s.len() ==> !is_sep(
            s[i + 1],
        ))))
}

proof fn lemma_collapse_head(s: Seq<char>)
    requires
        s.len() > 0,
    ensures
        collapse(s).len() > 0,
        !is_sep(s[0]) ==> collapse(s)[0] == s[0],
        is_sep(s[0]) ==> collapse(s)[0] == ' ',
    decreases s.len(),
{
    if is_sep(s[0]) && s.len() > 1 && is_sep(s[1]) {
        lemma_collapse_head(s.drop_first());
    }
}

proof fn lemma_collapse_collapsed(s: Seq<char>)
    ensures
        collapsed(collapse(s)),
    decreases s.len(),
{
    if s.len() > 0 {
        let rest = s.drop_first();
        let cr = collapse(rest);
        lemma_collapse_collapsed(rest);
        if is_sep(s[0]) {
            if s.len() > 1 && is_sep(s[1]) {
                // collapse(s) == cr, already collapsed
            } else {
                let c = seq![' '] + cr;
                if s.len() > 1 {
                    lemma_collapse_head(rest);
                }
                assert forall|i: int|
                    #![trigger c[i]]
                    0 <= i < c.len() implies (is_sep(c[i]) ==> (c[i] == ' ' && (i + 1 < c.len()
                    ==> !is_sep(c[i + 1])))) by {
                    if i > 0 {
                        assert(c[i] == cr[i - 1]);
                        if i + 1 < c.len() {
                            assert(c[i + 1] == cr[i]);
                        }
                    } else if 1 < c.len() {
                        assert(c[1] == cr[0]);
                    }
                }
            }
        } else {
            let c = seq![s[0]] + cr;
            assert forall|i: int|
                #![trigger c[i]]
                0 <= i < c.len() implies (is_sep(c[i]) ==> (c[i] == ' ' && (i + 1 < c.len()
                ==> !is_sep(c[i + 1])))) by {
                if i > 0 {
                    assert(c[i] == cr[i - 1]);
                    if i + 1 < c.len() {
                        assert(c[i + 1] == cr[i]);
                    }
                }
            }
        }
    }
}

proof fn lemma_collapsed_identity(s: Seq<char>)
    requires
        collapsed(s),
    ensures
        collapse(s) == s,
    decreases s.len(),
{
    if s.len() == 0 {
        assert(collapse(s) =~= s);
    } else {
        let rest = s.drop_first();
        assert forall|i: int|
            #![trigger rest[i]]
            0 <= i < rest.len() implies (is_sep(rest[i]) ==> (rest[i] == ' ' && (i + 1 < rest.len()
            ==> !is_sep(rest[i + 1])))) by {
            assert(rest[i] == s[i + 1]);
            if i + 1 < rest.len() {
                assert(rest[i + 1] == s[i + 2]);
            }
        }
        lemma_collapsed_identity(rest);
        if is_sep(s[0]) {
            assert(s[0] == ' ');
            assert(collapse(s) =~= s);
        } else {
            assert(collapse(s) =~= s);
        }
    }
}

proof fn lemma_collapsed_subrange(s: Seq<char>, a: int, b: int)
    requires
        collapsed(s),
        0 <= a <= b <= s.len(),
    ensures
        collapsed(s.subrange(a, b)),
{
    let t = s.subrange(a, b);
    assert forall|i: int|
        #![trigger t[i]]
        0 <= i < t.len() implies (is_sep(t[i]) ==> (t[i] == ' ' && (i + 1 < t.len() ==> !is_sep(
        t[i + 1],
    )))) by {
        assert(t[i] == s[a + i]);
        if i + 1 < t.len() {
            assert(t[i + 1] == s[a + i + 1]);
        }
    }
}

proof fn lemma_trim_start_suffix(s: Seq<char>)
    ensures
        trim_start(s).len() <= s.len(),
        trim_start(s) == s.subrange(s.len() - trim_start(s).len(), s.len() as int),
        trim_start(s).len() > 0 ==> !is_space(trim_start(s)[0]),
    decreases s.len(),
{
    if s.len() > 0 && is_space(s[0]) {
        lemma_trim_start_suffix(s.drop_first());
        let t = trim_start(s);
        assert(s.drop_first().subrange(
            s.drop_first().len() - t.len(),
            s.drop_first().len() as int,
        ) =~= s.subrange(s.len() - t.len(), s.len() as int));
    } else {
        assert(trim_start(s) =~= s.subrange(0, s.len() as int));
    }
}

proof fn lemma_trim_end_prefix(s: Seq<char>)
    ensures
        trim_end(s).len() <= s.len(),
        trim_end(s) == s.subrange(0, trim_end(s).len() as int),
        trim_end(s).len() > 0 ==> !is_space(trim_end(s).last()),
    decreases s.len(),
{
    if s.len() > 0 && is_space(s.last()) {
        lemma_trim_end_prefix(s.drop_last());
        let t = trim_end(s);
        assert(s.drop_last().subrange(0, t.len() as int) =~= s.subrange(0, t.len() as int));
    } else {
        assert(trim_end(s) =~= s.subrange(0, s.len() as int));
    }
}

/// Normalizing an already-normalized string returns it unchanged.
pub proof fn lemma_normalize_idempotent(s: Seq<char>)
    ensures
        normalize(normalize(s)) == normalize(s),
{
    let c = collapse(s);
    lemma_collapse_collapsed(s);
    let t = trim_start(c);
    lemma_trim_start_suffix(c);
    lemma_collapsed_subrange(c, c.len() - t.len(), c.len() as int);
    let r = trim_end(t);
    lemma_trim_end_prefix(t);
    lemma_collapsed_subrange(t, 0, r.len() as int);
    lemma_collapsed_identity(r);
    if r.len() > 0 {
        assert(r[0] == t[0]);
    }
}

fn sep_char(c: char) -> (r: bool)
    ensures
        r == is_sep(c),
{
    c == '.' || c == '-' || c == ' '
}

fn space_char(c: char) -> (r: bool)
    ensures
        r == is_space(c),
{
    c == ' ' || ('\u{09}' <= c && c <= '\u{0D}') || c == '\u{85}' || c == '\u{A0}'
        || c == '\u{1680}' || ('\u{2000}' <= c && c <= '\u{200A}') || c == '\u{2028}'
        || c == '\u{2029}' || c == '\u{202F}' || c == '\u{205F}' || c == '\u{3000}'
}

fn first_non_space(s: &str) -> (a: usize)
    ensures
        a <= s@.len(),
        s@.subrange(a as int, s@.len() as int) == trim_start(s@),
{
    let n = s.unicode_len();
    proof {
        assert(s@.subrange(0, n as int) =~= s@);
    }
    let mut a: usize = 0;
    while a < n
        invariant
            a <= n,
            n == s@.len(),
            trim_start(s@) == trim_start(s@.subrange(a as int, n as int)),
        decreases n - a,
    {
        let sub = Ghost(s@.subrange(a as int, n as int));
        if !space_char(s.get_char(a)) {
            proof {
                assert(s@.subrange(a as int, n as int) == trim_start(s@));
            }
            return a;
        }
        proof {
            assert(sub@.drop_first() =~= s@.subrange(a as int + 1, n as int));
        }
        a = a + 1;
    }
    proof {
        assert(s@.subrange(n as int, n as int) =~= trim_start(s@.subrange(n as int, n as int)));
    }
    n
}

fn last_non_space(s: &str, a: usize) -> (b: usize)
    requires
        a <= s@.len(),
    ensures
        a <= b <= s@.len(),
        s@.subrange(a as int, b as int) == trim_end(s@.subrange(a as int, s@.len() as int)),
{
    let n = s.unicode_len();
    let mut b: usize = n;
    while b > a
        invariant
            a <= b <= n,
            n == s@.len(),
            trim_end(s@.subrange(a as int, n as int)) == trim_end(s@.subrange(a as int, b as int)),
        decreases b,
    {
        let sub = Ghost(s@.subrange(a as int, b as int));
        if !space_char(s.get_char(b - 1)) {
            proof {
                assert(s@.subrange(a as int, b as int) == trim_end(
                    s@.subrange(a as int, n as int),
                ));
            }
            return b;
        }
        proof {
            assert(sub@.drop_last() =~= s@.subrange(a as int, b as int - 1));
        }
        b = b - 1;
    }
    proof {
        assert(s@.subrange(a as int, a as int) =~= trim_end(s@.subrange(a as int, a as int)));
    }
    a
}

/// Normalizes a raw name fragment for display: every maximal run of dots,
/// hyphens and spaces becomes a single space, and the result is trimmed.
pub fn format_name(name: &str) -> (r: String)
    ensures
        r@ == normalize(name@),
{
    let n = name.unicode_len();
    let mut out = String::new();
    proof {
        assert(name@.subrange(0, n as int) =~= name@);
        assert(out@ + collapse(name@) =~= collapse(name@));
    }
    let mut i: usize = 0;
    while i < n
        invariant
            i <= n,
            n == name@.len(),
            out@ + collapse(name@.subrange(i as int, n as int)) == collapse(name@),
        decreases n - i,
    {
        let sub = Ghost(name@.subrange(i as int, n as int));
        proof {
            assert(sub@.drop_first() =~= name@.subrange(i as int + 1, n as int));
        }
        let c = name.get_char(i);
        if sep_char(c) {
            if i + 1 < n && sep_char(name.get_char(i + 1)) {
                // inner separator of a run: dropped
            } else {
                out.append(" ");
                proof {
                    reveal_strlit(" ");
                    assert(" "@ =~= seq![' ']);
                    assert(out@ + collapse(name@.subrange(i as int + 1, n as int)) =~= collapse(
                        name@,
                    ));
                }
            }
        } else {
            let piece = name.substring_char(i, i + 1);
            proof {
                assert(piece@ =~= seq![name@[i as int]]);
            }
            out.append(piece);
            proof {
                assert(out@ + collapse(name@.subrange(i as int + 1, n as int)) =~= collapse(
                    name@,
                ));
            }
        }
        i = i + 1;
    }
    proof {
        assert(name@.subrange(n as int, n as int) =~= Seq::<char>::empty());
        assert(out@ =~= collapse(name@));
    }
    let a = first_non_space(out.as_str());
    let b = last_non_space(out.as_str(), a);
    out.as_str().substring_char(a, b).to_owned()
}

} // verus!
