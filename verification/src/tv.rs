//! Season and episode capture for TV file names.
//!
//! A marker is the textual cue that precedes a season or episode number:
//! a case-insensitive `"s"` or `"season"`, or `"e"`, `"ep"` or `"episode"`,
//! followed by optional spaces and at least one digit.  Capture takes the
//! number embedded in the leftmost marker of the file name's stem, unless the
//! caller supplies the value in a [`Context`], which always wins.

use crate::utils::{cap_filename_ext, ext_of, has_ext, stem_of};
use vstd::prelude::*;
use vstd::string::*;

verus! {

// ---------------------------------------------------------------------------
// Digits
// ---------------------------------------------------------------------------

/// Whether `c` is a decimal digit.
pub open spec fn is_digit(c: char) -> bool {
    '0' <= c && c <= '9'
}

/// The numeric value of a decimal digit.
pub open spec fn digit_of(c: char) -> nat
    recommends
        is_digit(c),
{
    if c == '0' {
        0
    } else if c == '1' {
        1
    } else if c == '2' {
        2
    } else if c == '3' {
        3
    } else if c == '4' {
        4
    } else if c == '5' {
        5
    } else if c == '6' {
        6
    } else if c == '7' {
        7
    } else if c == '8' {
        8
    } else {
        9
    }
}

/// End of the maximal digit run starting at `p`: the first position at or
/// after `p` holding no digit.
pub open spec fn digit_run_end(s: Seq<char>, p: int) -> int
    decreases s.len() - p,
{
    if 0 <= p < s.len() && is_digit(s[p]) {
        digit_run_end(s, p + 1)
    } else {
        p
    }
}

/// The value of the digits `s[p..q]` read as a decimal number.  Leading zeros
/// carry no value.
pub open spec fn digits_val(s: Seq<char>, p: int, q: int) -> nat
    decreases q - p,
{
    if p >= q {
        0
    } else {
        digits_val(s, p, q - 1) * 10 + digit_of(s[q - 1])
    }
}

// ---------------------------------------------------------------------------
// Case-insensitive letters
// ---------------------------------------------------------------------------

/// Whether `c` is a lower-case ASCII letter.
pub open spec fn is_lower(c: char) -> bool {
    'a' <= c && c <= 'z'
}

/// The upper-case form of a lower-case ASCII letter; any other character is
/// left as it is.
pub open spec fn upper_of(c: char) -> char {
    if c == 'a' {
        'A'
    } else if c == 'b' {
        'B'
    } else if c == 'c' {
        'C'
    } else if c == 'd' {
        'D'
    } else if c == 'e' {
        'E'
    } else if c == 'f' {
        'F'
    } else if c == 'g' {
        'G'
    } else if c == 'h' {
        'H'
    } else if c == 'i' {
        'I'
    } else if c == 'j' {
        'J'
    } else if c == 'k' {
        'K'
    } else if c == 'l' {
        'L'
    } else if c == 'm' {
        'M'
    } else if c == 'n' {
        'N'
    } else if c == 'o' {
        'O'
    } else if c == 'p' {
        'P'
    } else if c == 'q' {
        'Q'
    } else if c == 'r' {
        'R'
    } else if c == 's' {
        'S'
    } else if c == 't' {
        'T'
    } else if c == 'u' {
        'U'
    } else if c == 'v' {
        'V'
    } else if c == 'w' {
        'W'
    } else if c == 'x' {
        'X'
    } else if c == 'y' {
        'Y'
    } else if c == 'z' {
        'Z'
    } else {
        c
    }
}

/// Whether `c` matches the lower-case letter `l` up to ASCII case.
pub open spec fn eq_ci(c: char, l: char) -> bool {
    c == l || c == upper_of(l)
}

/// Whether `c` and `d` are the same character up to ASCII case.
pub open spec fn case_eq(c: char, d: char) -> bool {
    ||| c == d
    ||| (is_lower(c) && d == upper_of(c))
    ||| (is_lower(d) && c == upper_of(d))
}

// ---------------------------------------------------------------------------
// Markers
// ---------------------------------------------------------------------------

/// The letters of the full episode marker word.
pub open spec fn word_episode() -> Seq<char> {
    seq!['e', 'p', 'i', 's', 'o', 'd', 'e']
}

/// The letters of the abbreviated episode marker word.
pub open spec fn word_ep() -> Seq<char> {
    seq!['e', 'p']
}

/// The letter of the shortest episode marker word.
pub open spec fn word_e() -> Seq<char> {
    seq!['e']
}

/// The letters of the full season marker word.
pub open spec fn word_season() -> Seq<char> {
    seq!['s', 'e', 'a', 's', 'o', 'n']
}

/// The letter of the abbreviated season marker word.
pub open spec fn word_s() -> Seq<char> {
    seq!['s']
}

/// Whether the word `w` occurs at position `i` of `s`, up to ASCII case.
pub open spec fn word_at(s: Seq<char>, i: int, w: Seq<char>) -> bool {
    &&& 0 <= i
    &&& i + w.len() <= s.len()
    &&& forall|k: int| 0 <= k < w.len() ==> eq_ci(s[i + k], #[trigger] w[k])
}

/// First position at or after `p` holding no space character.
pub open spec fn skip_spaces(s: Seq<char>, p: int) -> int
    decreases s.len() - p,
{
    if 0 <= p < s.len() && s[p] == ' ' {
        skip_spaces(s, p + 1)
    } else {
        p
    }
}

/// Whether a marker built from the word `w` matches at position `i` of `s`:
/// the word, then optional spaces, then at least one digit.
pub open spec fn marker_at(s: Seq<char>, i: int, w: Seq<char>) -> bool {
    &&& word_at(s, i, w)
    &&& {
        let q = skip_spaces(s, i + w.len());
        q < s.len() && is_digit(s[q])
    }
}

/// The two marker kinds the capture engine knows.
#[derive(Clone, Copy, Debug)]
pub enum Marker {
    /// The episode marker: `"e"`, `"ep"` or `"episode"`, spaces, digits.
    Episode,
    /// The season marker: `"s"` or `"season"`, spaces, digits.
    Season,
}

/// Whether a marker of kind `k` matches at position `i` of `s`.
pub open spec fn marker_match_at(k: Marker, s: Seq<char>, i: int) -> bool {
    match k {
        Marker::Episode => marker_at(s, i, word_episode()) || marker_at(s, i, word_ep())
            || marker_at(s, i, word_e()),
        Marker::Season => marker_at(s, i, word_season()) || marker_at(s, i, word_s()),
    }
}

/// Where the digits of the marker of kind `k` matching at position `i`
/// begin.  The longest matching word wins, as the greedy pattern reads it.
pub open spec fn digit_start(k: Marker, s: Seq<char>, i: int) -> int
    recommends
        marker_match_at(k, s, i),
{
    match k {
        Marker::Episode => if marker_at(s, i, word_episode()) {
            skip_spaces(s, i + 7)
        } else if marker_at(s, i, word_ep()) {
            skip_spaces(s, i + 2)
        } else {
            skip_spaces(s, i + 1)
        },
        Marker::Season => if marker_at(s, i, word_season()) {
            skip_spaces(s, i + 6)
        } else {
            skip_spaces(s, i + 1)
        },
    }
}

/// Position of the first marker of kind `k` at or after `i`, or `s.len()`
/// when there is none.
pub open spec fn first_marker_from(k: Marker, s: Seq<char>, i: int) -> int
    decreases s.len() - i,
{
    if i < 0 || i >= s.len() {
        s.len() as int
    } else if marker_match_at(k, s, i) {
        i
    } else {
        first_marker_from(k, s, i + 1)
    }
}

/// Whether `s` holds a marker of kind `k` anywhere.
pub open spec fn has_marker(k: Marker, s: Seq<char>) -> bool {
    first_marker_from(k, s, 0) < s.len()
}

/// The number embedded in the leftmost marker of kind `k` in `s`: the value
/// of the maximal digit run at the marker's digits.
pub open spec fn marker_value(k: Marker, s: Seq<char>) -> nat
    recommends
        has_marker(k, s),
{
    let p = digit_start(k, s, first_marker_from(k, s, 0));
    digits_val(s, p, digit_run_end(s, p))
}

/// Whether the number embedded in the leftmost marker of kind `k` fits a
/// `usize`.  Holds vacuously when `s` has no such marker.
pub open spec fn marker_fits(k: Marker, s: Seq<char>) -> bool {
    has_marker(k, s) ==> marker_value(k, s) <= usize::MAX as nat
}

// ---------------------------------------------------------------------------
// Marker search
// ---------------------------------------------------------------------------

fn digit_char(c: char) -> (r: bool)
    ensures
        r == is_digit(c),
{
    '0' <= c && c <= '9'
}

fn digit_value(c: char) -> (v: usize)
    requires
        is_digit(c),
    ensures
        v as nat == digit_of(c),
        v <= 9,
{
    if c == '0' {
        0
    } else if c == '1' {
        1
    } else if c == '2' {
        2
    } else if c == '3' {
        3
    } else if c == '4' {
        4
    } else if c == '5' {
        5
    } else if c == '6' {
        6
    } else if c == '7' {
        7
    } else if c == '8' {
        8
    } else {
        9
    }
}

fn eq_ci_char(c: char, l: char) -> (r: bool)
    ensures
        r == eq_ci(c, l),
{
    if c == l {
        true
    } else if 'a' <= l && l <= 'z' {
        let u = ((l as u32) - 32) as u8 as char;
        proof {
            assert(u == upper_of(l));
        }
        c == u
    } else {
        false
    }
}

fn word_match(s: &str, i: usize, w: &str) -> (r: bool)
    requires
        i <= s@.len(),
    ensures
        r == word_at(s@, i as int, w@),
{
    let n = s.unicode_len();
    let wn = w.unicode_len();
    if wn > n - i {
        return false;
    }
    let mut k: usize = 0;
    while k < wn
        invariant
            k <= wn,
            i + wn <= n,
            n == s@.len(),
            wn == w@.len(),
            forall|t: int| 0 <= t < k ==> eq_ci(s@[i + t], #[trigger] w@[t]),
        decreases wn - k,
    {
        if !eq_ci_char(s.get_char(i + k), w.get_char(k)) {
            return false;
        }
        k = k + 1;
    }
    true
}

fn skip_spaces_exec(s: &str, p: usize) -> (q: usize)
    requires
        p <= s@.len(),
    ensures
        p <= q <= s@.len(),
        q == skip_spaces(s@, p as int),
{
    let n = s.unicode_len();
    let mut q = p;
    while q < n
        invariant
            p <= q <= n,
            n == s@.len(),
            skip_spaces(s@, p as int) == skip_spaces(s@, q as int),
        decreases n - q,
    {
        if s.get_char(q) != ' ' {
            return q;
        }
        q = q + 1;
    }
    q
}

fn try_word(s: &str, i: usize, w: &str) -> (r: Option<usize>)
    requires
        i <= s@.len(),
    ensures
        r is Some <==> marker_at(s@, i as int, w@),
        r matches Some(p) ==> (p == skip_spaces(s@, i as int + w@.len()) && p < s@.len()
            && is_digit(s@[p as int])),
{
    if !word_match(s, i, w) {
        return None;
    }
    let n = s.unicode_len();
    let wn = w.unicode_len();
    let q = skip_spaces_exec(s, i + wn);
    if q < n && digit_char(s.get_char(q)) {
        Some(q)
    } else {
        None
    }
}

fn find_digits_at(s: &str, i: usize, kind: Marker) -> (r: Option<usize>)
    requires
        i <= s@.len(),
    ensures
        r is Some <==> marker_match_at(kind, s@, i as int),
        r matches Some(p) ==> (p == digit_start(kind, s@, i as int) && p < s@.len() && is_digit(
            s@[p as int],
        )),
{
    proof {
        reveal_strlit("episode");
        reveal_strlit("ep");
        reveal_strlit("e");
        reveal_strlit("season");
        reveal_strlit("s");
        assert("episode"@ =~= word_episode());
        assert("ep"@ =~= word_ep());
        assert("e"@ =~= word_e());
        assert("season"@ =~= word_season());
        assert("s"@ =~= word_s());
    }
    match kind {
        Marker::Episode => {
            if let Some(p) = try_word(s, i, "episode") {
                Some(p)
            } else if let Some(p) = try_word(s, i, "ep") {
                Some(p)
            } else if let Some(p) = try_word(s, i, "e") {
                Some(p)
            } else {
                None
            }
        },
        Marker::Season => {
            if let Some(p) = try_word(s, i, "season") {
                Some(p)
            } else if let Some(p) = try_word(s, i, "s") {
                Some(p)
            } else {
                None
            }
        },
    }
}

fn find_marker(s: &str, kind: Marker) -> (r: Option<usize>)
    ensures
        r is Some <==> has_marker(kind, s@),
        r matches Some(p) ==> (p == digit_start(kind, s@, first_marker_from(kind, s@, 0)) && p
            < s@.len() && is_digit(s@[p as int])),
{
    let n = s.unicode_len();
    let mut i: usize = 0;
    while i < n
        invariant
            i <= n,
            n == s@.len(),
            first_marker_from(kind, s@, 0) == first_marker_from(kind, s@, i as int),
        decreases n - i,
    {
        if let Some(p) = find_digits_at(s, i, kind) {
            return Some(p);
        }
        i = i + 1;
    }
    None
}

proof fn lemma_digit_run_end_ge(s: Seq<char>, p: int)
    ensures
        digit_run_end(s, p) >= p,
    decreases s.len() - p,
{
    if 0 <= p < s.len() && is_digit(s[p]) {
        lemma_digit_run_end_ge(s, p + 1);
    }
}

proof fn lemma_digits_val_mono(s: Seq<char>, p: int, q1: int, q2: int)
    requires
        p <= q1 <= q2,
    ensures
        digits_val(s, p, q1) <= digits_val(s, p, q2),
    decreases q2 - q1,
{
    if q1 < q2 {
        lemma_digits_val_mono(s, p, q1, q2 - 1);
        assert(digits_val(s, p, q2) == digits_val(s, p, q2 - 1) * 10 + digit_of(s[q2 - 1]));
        assert(digits_val(s, p, q2 - 1) * 10 >= digits_val(s, p, q2 - 1));
    }
}

fn parse_digits(s: &str, start: usize) -> (r: Option<usize>)
    requires
        start <= s@.len(),
    ensures
        r is Some <==> digits_val(s@, start as int, digit_run_end(s@, start as int))
            <= usize::MAX as nat,
        r matches Some(v) ==> v as nat == digits_val(
            s@,
            start as int,
            digit_run_end(s@, start as int),
        ),
{
    let n = s.unicode_len();
    let mut acc: usize = 0;
    let mut j = start;
    while j < n
        invariant
            start <= j <= n,
            n == s@.len(),
            digit_run_end(s@, start as int) == digit_run_end(s@, j as int),
            acc as nat == digits_val(s@, start as int, j as int),
        decreases n - j,
    {
        let c = s.get_char(j);
        if !digit_char(c) {
            return Some(acc);
        }
        let d = digit_value(c);
        proof {
            lemma_digit_run_end_ge(s@, j as int + 1);
        }
        let acc10 = match acc.checked_mul(10) {
            Some(m) => m,
            None => {
                proof {
                    lemma_digits_val_mono(s@, start as int, j as int + 1, digit_run_end(s@, start as int));
                }
                return None;
            },
        };
        acc = match acc10.checked_add(d) {
            Some(v) => v,
            None => {
                proof {
                    lemma_digits_val_mono(s@, start as int, j as int + 1, digit_run_end(s@, start as int));
                }
                return None;
            },
        };
        j = j + 1;
    }
    Some(acc)
}

// ---------------------------------------------------------------------------
// Context, errors and capture
// ---------------------------------------------------------------------------

/// Caller-supplied ground truth for a capture.  A field that is present takes
/// precedence over anything parsed from the file name.
#[derive(Debug, PartialEq, Clone)]
pub struct Context {
    /// Episode number, equates to [`Capture::episode`].
    pub episode: Option<usize>,
    /// Season number, equates to [`Capture::season`].
    pub season: Option<usize>,
}

/// The ways building a [`Capture`] can fail.
#[derive(Debug, PartialEq, Clone)]
pub enum CaptureError {
    /// No season context supplied and no season marker found in the stem.
    NoSeasonRegex,
    /// No episode context supplied and no episode marker found in the stem.
    NoEpisodeRegex,
}

impl CaptureError {
    /// Human-readable description of the failure.
    pub fn message(&self) -> (r: &'static str)
        ensures
            *self == CaptureError::NoSeasonRegex ==> r@ == (
            "No season number passed as context and it wasn't found in the file name either")@,
            *self == CaptureError::NoEpisodeRegex ==> r@ == (
            "No episode number passed as context and it wasn't found in the file name either")@,
    {
        match self {
            CaptureError::NoSeasonRegex => {
                "No season number passed as context and it wasn't found in the file name either"
            },
            CaptureError::NoEpisodeRegex => {
                "No episode number passed as context and it wasn't found in the file name either"
            },
        }
    }
}

/// The error of the extractor for markers of kind `k`.
pub open spec fn err_of(k: Marker) -> CaptureError {
    match k {
        Marker::Episode => CaptureError::NoEpisodeRegex,
        Marker::Season => CaptureError::NoSeasonRegex,
    }
}

fn cap_marker(filename: &str, kind: Marker) -> (r: Option<Result<usize, CaptureError>>)
    ensures
        r is Some <==> marker_fits(kind, filename@),
        r matches Some(res) ==> (res is Ok <==> has_marker(kind, filename@)),
        r matches Some(res) ==> (res matches Ok(v) ==> v as nat == marker_value(kind, filename@)),
        r matches Some(res) ==> (res matches Err(e) ==> e == err_of(kind)),
{
    match find_marker(filename, kind) {
        Some(p) => {
            match parse_digits(filename, p) {
                Some(v) => Some(Ok(v)),
                None => None,
            }
        },
        None => {
            match kind {
                Marker::Episode => Some(Err(CaptureError::NoEpisodeRegex)),
                Marker::Season => Some(Err(CaptureError::NoSeasonRegex)),
            }
        },
    }
}

/// Extracts the episode number embedded in the leftmost episode marker of
/// `filename`, or reports that no such marker exists.
pub fn cap_episode(filename: &str) -> (r: Result<usize, CaptureError>)
    requires
        marker_fits(Marker::Episode, filename@),
    ensures
        r is Ok <==> has_marker(Marker::Episode, filename@),
        r matches Ok(v) ==> v as nat == marker_value(Marker::Episode, filename@),
        r matches Err(e) ==> e == CaptureError::NoEpisodeRegex,
{
    cap_marker(filename, Marker::Episode).unwrap()
}

/// Extracts the season number embedded in the leftmost season marker of
/// `filename`, or reports that no such marker exists.
pub fn cap_season(filename: &str) -> (r: Result<usize, CaptureError>)
    requires
        marker_fits(Marker::Season, filename@),
    ensures
        r is Ok <==> has_marker(Marker::Season, filename@),
        r matches Ok(v) ==> v as nat == marker_value(Marker::Season, filename@),
        r matches Err(e) ==> e == CaptureError::NoSeasonRegex,
{
    cap_marker(filename, Marker::Season).unwrap()
}

/// The error a capture of `path` under `ctx` produces, if any.  Season is
/// resolved before episode, so a missing season wins.
pub open spec fn capture_error_of(path: Seq<char>, ctx: Context) -> Option<CaptureError> {
    if ctx.season is None && !has_marker(Marker::Season, stem_of(path)) {
        Some(CaptureError::NoSeasonRegex)
    } else if ctx.episode is None && !has_marker(Marker::Episode, stem_of(path)) {
        Some(CaptureError::NoEpisodeRegex)
    } else {
        None
    }
}

/// Whether the season of `path` under `ctx` resolves: an override is given or
/// the stem holds a season marker.
pub open spec fn season_resolves(path: Seq<char>, ctx: Context) -> bool {
    ctx.season is Some || has_marker(Marker::Season, stem_of(path))
}

/// The season a capture of `path` under `ctx` resolves to: the override when
/// given, the number of the stem's leftmost season marker otherwise.
pub open spec fn resolved_season(path: Seq<char>, ctx: Context) -> nat {
    match ctx.season {
        Some(n) => n as nat,
        None => marker_value(Marker::Season, stem_of(path)),
    }
}

/// The episode a capture of `path` under `ctx` resolves to.
pub open spec fn resolved_episode(path: Seq<char>, ctx: Context) -> nat {
    match ctx.episode {
        Some(n) => n as nat,
        None => marker_value(Marker::Episode, stem_of(path)),
    }
}

/// Whether every marker number that a capture of `path` under `ctx` parses
/// fits a `usize`.  Only the markers the capture actually reads count: the
/// episode marker is reached only once the season has resolved.
pub open spec fn capture_fits(path: Seq<char>, ctx: Context) -> bool {
    &&& (ctx.season is None ==> marker_fits(Marker::Season, stem_of(path)))
    &&& ((season_resolves(path, ctx) && ctx.episode is None) ==> marker_fits(
        Marker::Episode,
        stem_of(path),
    ))
}

/// Whether `c` is the capture of `path` under `ctx`: the original path, its
/// stem and extension, and the resolved season and episode numbers.
pub open spec fn is_capture_of(c: Capture, path: Seq<char>, ctx: Context) -> bool {
    &&& c.file_path@ == path
    &&& c.filename@ == stem_of(path)
    &&& (has_ext(path) ==> (c.ext matches Some(e) && e@ == ext_of(path)))
    &&& (!has_ext(path) ==> c.ext is None)
    &&& c.season as nat == resolved_season(path, ctx)
    &&& c.episode as nat == resolved_episode(path, ctx)
}

/// A single capture resolved from a [`Context`] and the markers of a file
/// name.
#[derive(Debug, PartialEq, Clone)]
pub struct Capture {
    /// Original, pre-parsed file path provided.
    pub file_path: String,
    /// Parsed [`Capture::file_path`] without extension (if any).
    pub filename: String,
    /// Optional file extension found from parsing [`Capture::file_path`].
    pub ext: Option<String>,
    /// Episode number.
    pub episode: usize,
    /// Season number.
    pub season: usize,
}

impl Capture {
    /// Creates a new capture from a file path and a context to help it along.
    /// The season resolves first: when neither an override nor a marker gives
    /// it, the season error is returned and the episode is never examined.
    pub fn new(file_path: String, context: &Context) -> (r: Result<Self, CaptureError>)
        requires
            capture_fits(file_path@, *context),
        ensures
            r is Ok <==> capture_error_of(file_path@, *context) is None,
            r matches Err(e) ==> capture_error_of(file_path@, *context) == Some(e),
            r matches Ok(c) ==> is_capture_of(c, file_path@, *context),
    {
        let (filename, ext) = cap_filename_ext(file_path.as_str());
        let season = match context.season {
            Some(se) => se,
            None => match cap_season(filename.as_str()) {
                Ok(v) => v,
                Err(e) => {
                    return Err(e);
                },
            },
        };
        let episode = match context.episode {
            Some(ep) => ep,
            None => match cap_episode(filename.as_str()) {
                Ok(v) => v,
                Err(e) => {
                    return Err(e);
                },
            },
        };
        Ok(Capture { file_path, filename, ext, episode, season })
    }

    /// Like [`Capture::new`], but also reports, with `None`, a marker number
    /// too large for a `usize` instead of requiring the caller to rule that
    /// out.
    pub fn try_new(file_path: String, context: &Context) -> (r: Option<
        Result<Self, CaptureError>,
    >)
        ensures
            r is Some <==> capture_fits(file_path@, *context),
            r matches Some(res) ==> (res is Ok <==> capture_error_of(file_path@, *context)
                is None),
            r matches Some(res) ==> (res matches Err(e) ==> capture_error_of(
                file_path@,
                *context,
            ) == Some(e)),
            r matches Some(res) ==> (res matches Ok(c) ==> is_capture_of(
                c,
                file_path@,
                *context,
            )),
    {
        let (filename, ext) = cap_filename_ext(file_path.as_str());
        let season = match context.season {
            Some(se) => se,
            None => match cap_marker(filename.as_str(), Marker::Season) {
                Some(Ok(v)) => v,
                Some(Err(e)) => {
                    return Some(Err(e));
                },
                None => {
                    return None;
                },
            },
        };
        let episode = match context.episode {
            Some(ep) => ep,
            None => match cap_marker(filename.as_str(), Marker::Episode) {
                Some(Ok(v)) => v,
                Some(Err(e)) => {
                    return Some(Err(e));
                },
                None => {
                    return None;
                },
            },
        };
        Some(Ok(Capture { file_path, filename, ext, episode, season }))
    }
}

/// Seasonal input for batch captures: the file names of one season's
/// episodes.
#[derive(Debug, PartialEq, Clone)]
pub struct Episodes {
    /// Names of episodes, corresponding to [`Capture::file_path`].
    pub names: Vec<String>,
}

/// Whether the batch capture of `names` under `ctx` fails first at position
/// `j`, with the name `name` and error `e`: everything before `j` succeeds.
pub open spec fn batch_fails_at(
    names: Seq<String>,
    ctx: Context,
    j: int,
    name: Seq<char>,
    e: CaptureError,
) -> bool {
    &&& 0 <= j < names.len()
    &&& name == names[j]@
    &&& capture_error_of(names[j]@, ctx) == Some(e)
    &&& forall|k: int| 0 <= k < j ==> capture_error_of(#[trigger] names[k]@, ctx) is None
}

/// Captures every name of `episodes` under one shared context, stopping at
/// the first name that fails and reporting that name and its error.
pub fn capture_all(episodes: &Episodes, context: &Context) -> (r: Result<
    Vec<Capture>,
    (String, CaptureError),
>)
    requires
        forall|k: int|
            0 <= k < episodes.names@.len() ==> capture_fits(
                #[trigger] episodes.names@[k]@,
                *context,
            ),
    ensures
        r is Ok <==> (forall|k: int|
            0 <= k < episodes.names@.len() ==> capture_error_of(
                #[trigger] episodes.names@[k]@,
                *context,
            ) is None),
        r matches Ok(v) ==> v@.len() == episodes.names@.len() && (forall|k: int|
            0 <= k < episodes.names@.len() ==> is_capture_of(
                #[trigger] v@[k],
                episodes.names@[k]@,
                *context,
            )),
        r matches Err((name, e)) ==> exists|j: int|
            batch_fails_at(episodes.names@, *context, j, name@, e),
{
    let n = episodes.names.len();
    let mut caps: Vec<Capture> = Vec::new();
    let mut idx: usize = 0;
    while idx < n
        invariant
            idx <= n,
            n == episodes.names@.len(),
            caps@.len() == idx,
            forall|k: int|
                0 <= k < episodes.names@.len() ==> capture_fits(
                    #[trigger] episodes.names@[k]@,
                    *context,
                ),
            forall|k: int|
                0 <= k < idx ==> capture_error_of(#[trigger] episodes.names@[k]@, *context)
                    is None,
            forall|k: int|
                0 <= k < idx ==> is_capture_of(#[trigger] caps@[k], episodes.names@[k]@, *context),
        decreases n - idx,
    {
        let name = episodes.names[idx].clone();
        match Capture::new(name, context) {
            Ok(cap) => caps.push(cap),
            Err(e) => {
                let failed = (episodes.names[idx].clone(), e);
                proof {
                    assert(batch_fails_at(
                        episodes.names@,
                        *context,
                        idx as int,
                        failed.0@,
                        failed.1,
                    ));
                }
                return Err(failed);
            },
        }
        idx = idx + 1;
    }
    Ok(caps)
}

/// Like [`capture_all`], but also reports, with `None`, a marker number too
/// large for a `usize` instead of requiring the caller to rule that out.
pub fn try_capture_all(episodes: &Episodes, context: &Context) -> (r: Option<
    Result<Vec<Capture>, (String, CaptureError)>,
>)
    ensures
        (forall|k: int|
            0 <= k < episodes.names@.len() ==> capture_fits(
                #[trigger] episodes.names@[k]@,
                *context,
            )) ==> r is Some,
        r is None ==> exists|j: int|
            0 <= j < episodes.names@.len() && !capture_fits(
                #[trigger] episodes.names@[j]@,
                *context,
            ),
        r matches Some(res) ==> (res is Ok <==> (forall|k: int|
            0 <= k < episodes.names@.len() ==> capture_error_of(
                #[trigger] episodes.names@[k]@,
                *context,
            ) is None)),
        r matches Some(res) ==> (res matches Ok(v) ==> v@.len() == episodes.names@.len() && (
        forall|k: int|
            0 <= k < episodes.names@.len() ==> is_capture_of(
                #[trigger] v@[k],
                episodes.names@[k]@,
                *context,
            ))),
        r matches Some(res) ==> (res matches Err((name, e)) ==> exists|j: int|
            batch_fails_at(episodes.names@, *context, j, name@, e)),
{
    let n = episodes.names.len();
    let mut caps: Vec<Capture> = Vec::new();
    let mut idx: usize = 0;
    while idx < n
        invariant
            idx <= n,
            n == episodes.names@.len(),
            caps@.len() == idx,
            forall|k: int|
                0 <= k < idx ==> capture_fits(#[trigger] episodes.names@[k]@, *context),
            forall|k: int|
                0 <= k < idx ==> capture_error_of(#[trigger] episodes.names@[k]@, *context)
                    is None,
            forall|k: int|
                0 <= k < idx ==> is_capture_of(#[trigger] caps@[k], episodes.names@[k]@, *context),
        decreases n - idx,
    {
        let name = episodes.names[idx].clone();
        match Capture::try_new(name, context) {
            Some(Ok(cap)) => caps.push(cap),
            Some(Err(e)) => {
                let failed = (episodes.names[idx].clone(), e);
                proof {
                    assert(batch_fails_at(
                        episodes.names@,
                        *context,
                        idx as int,
                        failed.0@,
                        failed.1,
                    ));
                }
                return Some(Err(failed));
            },
            None => {
                return None;
            },
        }
        idx = idx + 1;
    }
    Some(Ok(caps))
}

// ---------------------------------------------------------------------------
// Laws
// ---------------------------------------------------------------------------

proof fn lemma_first_from_found(k: Marker, s: Seq<char>, lo: int, i: int)
    requires
        0 <= lo <= i < s.len(),
        marker_match_at(k, s, i),
        forall|j: int| lo <= j < i ==> !marker_match_at(k, s, j),
    ensures
        first_marker_from(k, s, lo) == i,
    decreases i - lo,
{
    if lo < i {
        lemma_first_from_found(k, s, lo + 1, i);
    }
}

proof fn lemma_first_from_props(k: Marker, s: Seq<char>, i: int)
    requires
        0 <= i <= s.len(),
    ensures
        i <= first_marker_from(k, s, i) <= s.len(),
        first_marker_from(k, s, i) < s.len() ==> marker_match_at(k, s, first_marker_from(k, s, i)),
    decreases s.len() - i,
{
    if i < s.len() && !marker_match_at(k, s, i) {
        lemma_first_from_props(k, s, i + 1);
    }
}

/// The number recovered for a marker kind is the one embedded at the leftmost
/// position where the marker matches, whatever text surrounds it.
pub proof fn lemma_leftmost_marker(k: Marker, s: Seq<char>, i: int)
    requires
        0 <= i < s.len(),
        marker_match_at(k, s, i),
        forall|j: int| 0 <= j < i ==> !marker_match_at(k, s, j),
    ensures
        has_marker(k, s),
        marker_value(k, s) == {
            let p = digit_start(k, s, i);
            digits_val(s, p, digit_run_end(s, p))
        },
{
    lemma_first_from_found(k, s, 0, i);
}

/// With no season override, a capture recovers exactly the number embedded in
/// the stem's leftmost season marker, whatever text surrounds the marker.
pub proof fn lemma_season_recovered(path: Seq<char>, ctx: Context, i: int)
    requires
        ctx.season is None,
        0 <= i < stem_of(path).len(),
        marker_match_at(Marker::Season, stem_of(path), i),
        forall|j: int| 0 <= j < i ==> !marker_match_at(Marker::Season, stem_of(path), j),
    ensures
        capture_error_of(path, ctx) != Some(CaptureError::NoSeasonRegex),
        resolved_season(path, ctx) == {
            let p = digit_start(Marker::Season, stem_of(path), i);
            digits_val(stem_of(path), p, digit_run_end(stem_of(path), p))
        },
{
    lemma_leftmost_marker(Marker::Season, stem_of(path), i);
}

/// An override always wins: a supplied context field is the resolved value,
/// whatever the file name holds, and that field can no longer fail.
pub proof fn lemma_override_wins(path: Seq<char>, ctx: Context)
    ensures
        ctx.season matches Some(n) ==> resolved_season(path, ctx) == n as nat,
        ctx.season is Some ==> capture_error_of(path, ctx) != Some(CaptureError::NoSeasonRegex),
        ctx.episode matches Some(n) ==> resolved_episode(path, ctx) == n as nat,
        ctx.episode is Some ==> capture_error_of(path, ctx) != Some(CaptureError::NoEpisodeRegex),
{
}

proof fn lemma_case_eq_basics(c: char, d: char)
    requires
        case_eq(c, d),
    ensures
        is_digit(c) == is_digit(d),
        is_digit(c) ==> c == d,
        (c == ' ') == (d == ' '),
{
}

proof fn lemma_case_eq_ci(c: char, d: char, l: char)
    requires
        case_eq(c, d),
        is_lower(l),
    ensures
        eq_ci(c, l) == eq_ci(d, l),
{
}

proof fn lemma_word_at_ci(s: Seq<char>, t: Seq<char>, i: int, w: Seq<char>)
    requires
        s.len() == t.len(),
        forall|x: int| 0 <= x < s.len() ==> case_eq(s[x], #[trigger] t[x]),
        forall|k: int| 0 <= k < w.len() ==> is_lower(#[trigger] w[k]),
    ensures
        word_at(s, i, w) == word_at(t, i, w),
{
    if word_at(s, i, w) {
        assert forall|k: int| 0 <= k < w.len() implies eq_ci(t[i + k], #[trigger] w[k]) by {
            lemma_case_eq_ci(s[i + k], t[i + k], w[k]);
        }
    }
    if word_at(t, i, w) {
        assert forall|k: int| 0 <= k < w.len() implies eq_ci(s[i + k], #[trigger] w[k]) by {
            lemma_case_eq_ci(s[i + k], t[i + k], w[k]);
        }
    }
}

proof fn lemma_skip_spaces_bounds(s: Seq<char>, p: int)
    requires
        0 <= p <= s.len(),
    ensures
        p <= skip_spaces(s, p) <= s.len(),
    decreases s.len() - p,
{
    if p < s.len() && s[p] == ' ' {
        lemma_skip_spaces_bounds(s, p + 1);
    }
}

proof fn lemma_skip_spaces_ci(s: Seq<char>, t: Seq<char>, p: int)
    requires
        s.len() == t.len(),
        forall|x: int| 0 <= x < s.len() ==> case_eq(s[x], #[trigger] t[x]),
    ensures
        skip_spaces(s, p) == skip_spaces(t, p),
    decreases s.len() - p,
{
    if 0 <= p < s.len() {
        lemma_case_eq_basics(s[p], t[p]);
        if s[p] == ' ' {
            lemma_skip_spaces_ci(s, t, p + 1);
        }
    }
}

proof fn lemma_digit_run_end_ci(s: Seq<char>, t: Seq<char>, p: int)
    requires
        s.len() == t.len(),
        forall|x: int| 0 <= x < s.len() ==> case_eq(s[x], #[trigger] t[x]),
    ensures
        digit_run_end(s, p) == digit_run_end(t, p),
    decreases s.len() - p,
{
    if 0 <= p < s.len() {
        lemma_case_eq_basics(s[p], t[p]);
        if is_digit(s[p]) {
            lemma_digit_run_end_ci(s, t, p + 1);
        }
    }
}

proof fn lemma_digit_run_digits(s: Seq<char>, p: int)
    ensures
        forall|x: int| p <= x < digit_run_end(s, p) ==> is_digit(#[trigger] s[x]),
    decreases s.len() - p,
{
    if 0 <= p < s.len() && is_digit(s[p]) {
        lemma_digit_run_digits(s, p + 1);
    }
}

proof fn lemma_digits_val_ci(s: Seq<char>, t: Seq<char>, p: int, q: int)
    requires
        s.len() == t.len(),
        forall|x: int| 0 <= x < s.len() ==> case_eq(s[x], #[trigger] t[x]),
        0 <= p,
        q <= s.len(),
        forall|x: int| p <= x < q ==> is_digit(#[trigger] s[x]),
    ensures
        digits_val(s, p, q) == digits_val(t, p, q),
    decreases q - p,
{
    if p < q {
        lemma_case_eq_basics(s[q - 1], t[q - 1]);
        lemma_digits_val_ci(s, t, p, q - 1);
    }
}

proof fn lemma_words_lower()
    ensures
        forall|k: int| 0 <= k < word_episode().len() ==> is_lower(#[trigger] word_episode()[k]),
        forall|k: int| 0 <= k < word_ep().len() ==> is_lower(#[trigger] word_ep()[k]),
        forall|k: int| 0 <= k < word_e().len() ==> is_lower(#[trigger] word_e()[k]),
        forall|k: int| 0 <= k < word_season().len() ==> is_lower(#[trigger] word_season()[k]),
        forall|k: int| 0 <= k < word_s().len() ==> is_lower(#[trigger] word_s()[k]),
{
}

proof fn lemma_marker_at_ci(s: Seq<char>, t: Seq<char>, i: int, w: Seq<char>)
    requires
        s.len() == t.len(),
        forall|x: int| 0 <= x < s.len() ==> case_eq(s[x], #[trigger] t[x]),
        forall|k: int| 0 <= k < w.len() ==> is_lower(#[trigger] w[k]),
    ensures
        marker_at(s, i, w) == marker_at(t, i, w),
{
    lemma_word_at_ci(s, t, i, w);
    lemma_skip_spaces_ci(s, t, i + w.len());
    if word_at(s, i, w) || word_at(t, i, w) {
        lemma_skip_spaces_bounds(s, i + w.len());
        let q = skip_spaces(s, i + w.len());
        if q < s.len() {
            lemma_case_eq_basics(s[q], t[q]);
        }
    }
}

proof fn lemma_marker_match_ci(k: Marker, s: Seq<char>, t: Seq<char>, i: int)
    requires
        s.len() == t.len(),
        forall|x: int| 0 <= x < s.len() ==> case_eq(s[x], #[trigger] t[x]),
    ensures
        marker_match_at(k, s, i) == marker_match_at(k, t, i),
        marker_match_at(k, s, i) ==> digit_start(k, s, i) == digit_start(k, t, i),
{
    lemma_words_lower();
    match k {
        Marker::Episode => {
            lemma_marker_at_ci(s, t, i, word_episode());
            lemma_marker_at_ci(s, t, i, word_ep());
            lemma_marker_at_ci(s, t, i, word_e());
            lemma_skip_spaces_ci(s, t, i + 7);
            lemma_skip_spaces_ci(s, t, i + 2);
            lemma_skip_spaces_ci(s, t, i + 1);
        },
        Marker::Season => {
            lemma_marker_at_ci(s, t, i, word_season());
            lemma_marker_at_ci(s, t, i, word_s());
            lemma_skip_spaces_ci(s, t, i + 6);
            lemma_skip_spaces_ci(s, t, i + 1);
        },
    }
}

proof fn lemma_digit_start_bounds(k: Marker, s: Seq<char>, i: int)
    requires
        marker_match_at(k, s, i),
    ensures
        0 <= digit_start(k, s, i) < s.len(),
        is_digit(s[digit_start(k, s, i)]),
{
    match k {
        Marker::Episode => {
            if marker_at(s, i, word_episode()) {
                lemma_skip_spaces_bounds(s, i + 7);
            } else if marker_at(s, i, word_ep()) {
                lemma_skip_spaces_bounds(s, i + 2);
            } else {
                lemma_skip_spaces_bounds(s, i + 1);
            }
        },
        Marker::Season => {
            if marker_at(s, i, word_season()) {
                lemma_skip_spaces_bounds(s, i + 6);
            } else {
                lemma_skip_spaces_bounds(s, i + 1);
            }
        },
    }
}

proof fn lemma_first_from_ci(k: Marker, s: Seq<char>, t: Seq<char>, i: int)
    requires
        s.len() == t.len(),
        forall|x: int| 0 <= x < s.len() ==> case_eq(s[x], #[trigger] t[x]),
    ensures
        first_marker_from(k, s, i) == first_marker_from(k, t, i),
    decreases s.len() - i,
{
    if 0 <= i < s.len() {
        lemma_marker_match_ci(k, s, t, i);
        if !marker_match_at(k, s, i) {
            lemma_first_from_ci(k, s, t, i + 1);
        }
    }
}

/// Marker capture is insensitive to ASCII letter case: two strings equal up
/// to case hold the same markers and embed the same numbers.
pub proof fn lemma_marker_case_insensitive(k: Marker, s: Seq<char>, t: Seq<char>)
    requires
        s.len() == t.len(),
        forall|x: int| 0 <= x < s.len() ==> case_eq(s[x], #[trigger] t[x]),
    ensures
        has_marker(k, s) == has_marker(k, t),
        has_marker(k, s) ==> marker_value(k, s) == marker_value(k, t),
{
    lemma_first_from_ci(k, s, t, 0);
    if has_marker(k, s) {
        let i = first_marker_from(k, s, 0);
        lemma_first_from_props(k, s, 0);
        lemma_marker_match_ci(k, s, t, i);
        lemma_digit_start_bounds(k, s, i);
        let p = digit_start(k, s, i);
        lemma_digit_run_end_ci(s, t, p);
        lemma_digit_run_digits(s, p);
        lemma_digit_run_end_bounds(s, p);
        lemma_digits_val_ci(s, t, p, digit_run_end(s, p));
    }
}

proof fn lemma_digit_run_end_bounds(s: Seq<char>, p: int)
    requires
        0 <= p <= s.len(),
    ensures
        p <= digit_run_end(s, p) <= s.len(),
    decreases s.len() - p,
{
    if p < s.len() && is_digit(s[p]) {
        lemma_digit_run_end_bounds(s, p + 1);
    }
}

// ---------------------------------------------------------------------------
// Route help texts
// ---------------------------------------------------------------------------

/// Gives help by providing available endpoints for TV tagging.
pub fn help() -> (r: &'static str)
    ensures
        r@ == (
        "ROUTE /tv\n\n\nAbout\n    Allows tagging of tv shows with conventional season + episode tagging,\n    allowing manual explicit (optional) season or episode numbers to be passed\n    for clarification\n\n\nChild routes/endpoints\n    - /episode: Single episode tagging\n    - /season: Bulk per-season tagging")@,
{
    "ROUTE /tv\n\n\nAbout\n    Allows tagging of tv shows with conventional season + episode tagging,\n    allowing manual explicit (optional) season or episode numbers to be passed\n    for clarification\n\n\nChild routes/endpoints\n    - /episode: Single episode tagging\n    - /season: Bulk per-season tagging"
}

/// Gives help for how to use the single-episode endpoint.
pub fn episode_help() -> (r: &'static str)
    ensures
        r@ == (
        "ENDPOINT POST /tv/episode?<name>&<episode>&<season>\n\n\nAbout\n    Tags a single episode of a tv show by it's required `name` with optional\n    passed context by including either `episode` or `season` query args.")@,
{
    "ENDPOINT POST /tv/episode?<name>&<episode>&<season>\n\n\nAbout\n    Tags a single episode of a tv show by it's required `name` with optional\n    passed context by including either `episode` or `season` query args."
}

/// Gives help for how to use the per-season batch endpoint.
pub fn season_help() -> (r: &'static str)
    ensures
        r@ == (
        "ENDPOINT POST /tv/season\n\n\nAbout\n    Tags entire array of episodes into a single season according to the provided\n    `season` parameter.\n\n\nExample JSON\n    {\n        \"episodes\": [\n            \"ep 1.mp4\",\n            \"etc episode4.mpv\"\n        ],\n        \"season\": 4\n    }")@,
{
    "ENDPOINT POST /tv/season\n\n\nAbout\n    Tags entire array of episodes into a single season according to the provided\n    `season` parameter.\n\n\nExample JSON\n    {\n        \"episodes\": [\n            \"ep 1.mp4\",\n            \"etc episode4.mpv\"\n        ],\n        \"season\": 4\n    }"
}

} // verus!
