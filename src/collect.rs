//! The pure part of the playlist collector: which captured responses are
//! kept, the names they are saved under, and the bytes that are written.
//! Launching the browser and touching the file system are left to the caller.

use vstd::prelude::*;
use vstd::slice::slice_to_vec;
use vstd::string::{StrSliceExecFns, StringSliceAdditionalSpecFns};

verus! {

/// Options of the collect command.
pub struct Collect {
    /// The page to open.
    pub url: String,
    /// Directory for the saved files; the working directory when absent.
    pub directory: Option<String>,
    /// Run the browser without a window.
    pub headless: bool,
}

impl Collect {
    /// Options for opening `url`.
    pub fn new(url: String, directory: Option<String>, headless: bool) -> (r: Collect)
        ensures
            r.url == url,
            r.directory == directory,
            r.headless == headless,
    {
        Collect { url, directory, headless }
    }
}

// ---------------------------------------------------------------- text model

/// Index of the first `c` in `s`, or the length of `s` when there is none.
pub open spec fn first_index_of(s: Seq<char>, c: char) -> nat
    decreases s.len(),
{
    if s.len() == 0 {
        0
    } else if first_index_of(s.drop_last(), c) < s.len() - 1 {
        first_index_of(s.drop_last(), c)
    } else if s.last() == c {
        (s.len() - 1) as nat
    } else {
        s.len()
    }
}

/// Index of the last `c` in `s`, if any.
pub open spec fn last_index_of(s: Seq<char>, c: char) -> Option<nat>
    decreases s.len(),
{
    if s.len() == 0 {
        None
    } else if s.last() == c {
        Some((s.len() - 1) as nat)
    } else {
        last_index_of(s.drop_last(), c)
    }
}

/// `s` ends with `t`.
pub open spec fn ends_with(s: Seq<char>, t: Seq<char>) -> bool {
    t.len() <= s.len() && s.subrange(s.len() - t.len(), s.len() as int) == t
}

/// The part of a URL before its query string.
pub open spec fn without_query(url: Seq<char>) -> Seq<char> {
    url.take(first_index_of(url, '?') as int)
}

/// The last `/`-separated segment of the URL without its query string.
pub open spec fn last_segment(url: Seq<char>) -> Seq<char> {
    let b = without_query(url);
    match last_index_of(b, '/') {
        Some(k) => b.skip(k + 1int),
        None => b,
    }
}

/// The file extensions of the responses that are kept: playlists and
/// subtitles.
pub open spec fn kept_extensions() -> Seq<Seq<char>> {
    seq![
        seq!['.', 'm', '3', 'u'],
        seq!['.', 'm', '3', 'u', '8'],
        seq!['.', 'm', 'p', 'd'],
        seq!['.', 'v', 't', 't'],
        seq!['.', 's', 'r', 't'],
    ]
}

/// A response at `url` is a playlist or a subtitle file.
pub open spec fn is_kept_url(url: Seq<char>) -> bool {
    exists|i: int| 0 <= i < kept_extensions().len()
        && ends_with(without_query(url), #[trigger] kept_extensions()[i])
}

/// Characters that cannot stand in a file name on common systems.
pub open spec fn is_reserved(c: char) -> bool {
    c == '<' || c == '>' || c == ':' || c == '"' || c == '\\' || c == '|' || c == '?'
}

/// `s` with each reserved character replaced by `_`.
pub open spec fn sanitized(s: Seq<char>) -> Seq<char> {
    s.map_values(|c: char| if is_reserved(c) { '_' } else { c })
}

/// The extension given to a name that has none.
pub open spec fn undefined_text() -> Seq<char> {
    seq!['u', 'n', 'd', 'e', 'f', 'i', 'n', 'e', 'd']
}

/// What every saved name starts with.
pub open spec fn name_prefix() -> Seq<char> {
    seq!['v', 's', 'd', '_', 'c', 'o', 'l', 'l', 'e', 'c', 't', '_']
}

/// A file name split into its stem and extension, as a path does it: the
/// extension follows the last dot, unless that dot opens the name or the
/// name is `..`; without one the extension is `undefined`.
pub open spec fn split_extension(name: Seq<char>) -> (Seq<char>, Seq<char>) {
    if name == seq!['.', '.'] {
        (name, undefined_text())
    } else {
        match last_index_of(name, '.') {
            Some(k) => if k > 0 {
                (name.take(k as int), name.skip(k + 1int))
            } else {
                (name, undefined_text())
            },
            None => (name, undefined_text()),
        }
    }
}

/// Decimal digits of `n`.
pub open spec fn decimal(n: nat) -> Seq<char>
    decreases n,
{
    if n < 10 {
        seq![digit_char(n)]
    } else {
        decimal(n / 10).push(digit_char(n % 10))
    }
}

/// The character of the decimal digit `d`.
pub open spec fn digit_char(d: nat) -> char {
    seq!['0', '1', '2', '3', '4', '5', '6', '7', '8', '9'][d as int]
}

/// The name a response at `url` is saved under: `vsd_collect_<stem>.<ext>`
/// at the first attempt, `vsd_collect_<stem>_(<attempt>).<ext>` at later ones.
pub open spec fn saved_name(url: Seq<char>, attempt: nat) -> Seq<char> {
    let (stem, ext) = split_extension(sanitized(last_segment(url)));
    let counter = if attempt == 0 {
        Seq::empty()
    } else {
        seq!['_', '('] + decimal(attempt) + seq![')']
    };
    name_prefix() + stem + counter + seq!['.'] + ext
}

// ---------------------------------------------------------------- text helpers

/// Relies on `String::from_iter` over characters: the string holds them in order.
#[verifier::external_body]
fn string_of_chars(chars: &Vec<char>) -> (r: String)
    ensures
        r@ == chars@,
{
    String::from_iter(chars.iter())
}

/// The characters of `s`.
fn chars_of(s: &str) -> (r: Vec<char>)
    ensures
        r@ == s@,
{
    let n = s.unicode_len();
    let mut out: Vec<char> = Vec::new();
    let mut i: usize = 0;
    while i < n
        invariant
            n == s@.len(),
            i <= n,
            out@ == s@.take(i as int),
        decreases n - i,
    {
        out.push(s.get_char(i));
        i = i + 1;
        assert(out@ =~= s@.take(i as int));
    }
    assert(out@ =~= s@);
    out
}

/// Index of the first `c` in `s`, or `s`'s length.
fn first_index(s: &Vec<char>, c: char) -> (r: usize)
    ensures
        r == first_index_of(s@, c),
{
    let mut k: usize = 0;
    let mut i: usize = 0;
    assert(s@.take(0).len() == 0);
    while i < s.len()
        invariant
            i <= s.len(),
            k <= i,
            k == first_index_of(s@.take(i as int), c),
        decreases s.len() - i,
    {
        assert(s@.take(i + 1).drop_last() =~= s@.take(i as int));
        if k == i {
            if s[i] != c {
                k = i + 1;
            }
        }
        i = i + 1;
    }
    assert(s@.take(i as int) =~= s@);
    k
}

/// Index of the last `c` in `s`, if any.
fn last_index(s: &Vec<char>, c: char) -> (r: Option<usize>)
    ensures
        r matches Some(k) ==> last_index_of(s@, c) == Some(k as nat),
        r is None ==> last_index_of(s@, c) is None,
{
    let mut k: Option<usize> = None;
    let mut i: usize = 0;
    assert(s@.take(0).len() == 0);
    while i < s.len()
        invariant
            i <= s.len(),
            k matches Some(j) ==> j < i && last_index_of(s@.take(i as int), c) == Some(j as nat),
            k is None ==> last_index_of(s@.take(i as int), c) is None,
        decreases s.len() - i,
    {
        assert(s@.take(i + 1).drop_last() =~= s@.take(i as int));
        if s[i] == c {
            k = Some(i);
        }
        i = i + 1;
    }
    assert(s@.take(i as int) =~= s@);
    k
}

/// The characters of `s` from `from` to `to`.
fn slice_chars(s: &Vec<char>, from: usize, to: usize) -> (r: Vec<char>)
    requires
        from <= to <= s.len(),
    ensures
        r@ == s@.subrange(from as int, to as int),
{
    let mut out: Vec<char> = Vec::new();
    let mut i: usize = from;
    while i < to
        invariant
            from <= i <= to <= s.len(),
            out@ == s@.subrange(from as int, i as int),
        decreases to - i,
    {
        out.push(s[i]);
        i = i + 1;
        assert(out@ =~= s@.subrange(from as int, i as int));
    }
    out
}

/// Appends the characters of `t` to `out`.
fn push_all(out: &mut Vec<char>, t: &Vec<char>)
    ensures
        final(out)@ == old(out)@ + t@,
{
    let ghost start = out@;
    let mut i: usize = 0;
    while i < t.len()
        invariant
            i <= t.len(),
            out@ == start + t@.take(i as int),
        decreases t.len() - i,
    {
        out.push(t[i]);
        i = i + 1;
        assert(out@ =~= start + t@.take(i as int));
    }
    assert(t@.take(i as int) =~= t@);
}

/// Whether `s` ends with `t`.
fn ends_with_chars(s: &Vec<char>, t: &Vec<char>) -> (r: bool)
    ensures
        r == ends_with(s@, t@),
{
    if t.len() > s.len() {
        return false;
    }
    let base = s.len() - t.len();
    let mut i: usize = 0;
    while i < t.len()
        invariant
            base + t.len() == s.len(),
            i <= t.len(),
            forall|j: int| 0 <= j < i ==> s@[base + j] == t@[j],
        decreases t.len() - i,
    {
        if s[base + i] != t[i] {
            assert(s@.subrange(base as int, s.len() as int)[i as int] != t@[i as int]);
            return false;
        }
        i = i + 1;
    }
    assert(s@.subrange(base as int, s.len() as int) =~= t@);
    true
}

/// Appends the decimal digits of `n` to `out`.
fn push_decimal(out: &mut Vec<char>, n: u64)
    ensures
        final(out)@ == old(out)@ + decimal(n as nat),
    decreases n,
{
    let digits: Vec<char> = vec!['0', '1', '2', '3', '4', '5', '6', '7', '8', '9'];
    if n >= 10 {
        push_decimal(out, n / 10);
    }
    out.push(digits[(n % 10) as usize]);
    proof {
        if n >= 10 {
            assert(decimal(n as nat) == decimal((n / 10) as nat).push(digit_char((n % 10) as nat)));
        }
        assert(digits@ == seq!['0', '1', '2', '3', '4', '5', '6', '7', '8', '9']);
    }
    assert(out@ =~= old(out)@ + decimal(n as nat));
}

// ---------------------------------------------------------------- decisions

/// The characters of `url` before its query string.
fn url_without_query(url: &Vec<char>) -> (r: Vec<char>)
    ensures
        r@ == without_query(url@),
{
    let q = first_index(url, '?');
    proof { lemma_first_index_bound(url@, '?'); }
    let r = slice_chars(url, 0, q);
    assert(r@ =~= without_query(url@));
    r
}

proof fn lemma_first_index_bound(s: Seq<char>, c: char)
    ensures
        first_index_of(s, c) <= s.len(),
    decreases s.len(),
{
    if s.len() > 0 {
        lemma_first_index_bound(s.drop_last(), c);
    }
}

proof fn lemma_last_index_bound(s: Seq<char>, c: char)
    ensures
        last_index_of(s, c) matches Some(k) ==> k < s.len() && s[k as int] == c,
    decreases s.len(),
{
    if s.len() > 0 && s.last() != c {
        lemma_last_index_bound(s.drop_last(), c);
    }
}

/// Whether a response at `url` is a playlist (`.m3u`, `.m3u8`, `.mpd`) or a
/// subtitle file (`.vtt`, `.srt`), judged on the URL without its query.
pub fn is_kept(url: &str) -> (r: bool)
    ensures
        r == is_kept_url(url@),
{
    let chars = chars_of(url);
    let base = url_without_query(&chars);
    let e0: Vec<char> = vec!['.', 'm', '3', 'u'];
    let e1: Vec<char> = vec!['.', 'm', '3', 'u', '8'];
    let e2: Vec<char> = vec!['.', 'm', 'p', 'd'];
    let e3: Vec<char> = vec!['.', 'v', 't', 't'];
    let e4: Vec<char> = vec!['.', 's', 'r', 't'];
    let k = ends_with_chars(&base, &e0) || ends_with_chars(&base, &e1) || ends_with_chars(&base, &e2)
        || ends_with_chars(&base, &e3) || ends_with_chars(&base, &e4);
    proof {
        let x = kept_extensions();
        assert(x[0] == e0@ && x[1] == e1@ && x[2] == e2@ && x[3] == e3@ && x[4] == e4@);
        if k {
            if ends_with(base@, x[0]) {
            } else if ends_with(base@, x[1]) {
            } else if ends_with(base@, x[2]) {
            } else if ends_with(base@, x[3]) {
            } else {
                assert(ends_with(without_query(url@), x[4]));
            }
        }
    }
    k
}

/// Whether a captured response is saved: it was fetched by a script (an XHR
/// or a fetch) and its URL names a playlist or a subtitle file.
pub fn handles_response(by_script: bool, url: &str) -> (r: bool)
    ensures
        r == (by_script && is_kept_url(url@)),
{
    by_script && is_kept(url)
}

/// The last path segment of `url`, query string removed.
fn url_last_segment(url: &str) -> (r: Vec<char>)
    ensures
        r@ == last_segment(url@),
{
    let chars = chars_of(url);
    let base = url_without_query(&chars);
    proof { lemma_last_index_bound(base@, '/'); }
    let segment = match last_index(&base, '/') {
        Some(k) => {
            assert(last_index_of(base@, '/') == Some(k as nat));
            slice_chars(&base, k + 1, base.len())
        },
        None => base,
    };
    assert(segment@ =~= last_segment(url@));
    segment
}

/// `s` with reserved characters replaced.
fn sanitize(s: &Vec<char>) -> (r: Vec<char>)
    ensures
        r@ == sanitized(s@),
{
    let mut name: Vec<char> = Vec::new();
    let mut i: usize = 0;
    while i < s.len()
        invariant
            i <= s.len(),
            name@ == sanitized(s@.take(i as int)),
        decreases s.len() - i,
    {
        let c = s[i];
        let d = if c == '<' || c == '>' || c == ':' || c == '"' || c == '\\' || c == '|' || c == '?' {
            '_'
        } else {
            c
        };
        name.push(d);
        i = i + 1;
        assert(name@ =~= sanitized(s@.take(i as int)));
    }
    assert(s@.take(i as int) =~= s@);
    name
}

/// Splits a file name into its stem and extension.
fn split_name(name: Vec<char>) -> (r: (Vec<char>, Vec<char>))
    ensures
        r.0@ == split_extension(name@).0,
        r.1@ == split_extension(name@).1,
{
    let undefined: Vec<char> = vec!['u', 'n', 'd', 'e', 'f', 'i', 'n', 'e', 'd'];
    let is_parent = name.len() == 2 && name[0] == '.' && name[1] == '.';
    assert(is_parent == (name@ == seq!['.', '.'])) by {
        if name@ == seq!['.', '.'] {
            assert(name@[0] == '.' && name@[1] == '.');
        }
        if is_parent {
            assert(name@ =~= seq!['.', '.']);
        }
    }
    if is_parent {
        return (name, undefined);
    }
    proof { lemma_last_index_bound(name@, '.'); }
    match last_index(&name, '.') {
        Some(k) => {
            if k > 0 {
                (slice_chars(&name, 0, k), slice_chars(&name, k + 1, name.len()))
            } else {
                (name, undefined)
            }
        },
        None => (name, undefined),
    }
}

/// The name, relative to the download directory, that a response at `url`
/// is saved under at the given attempt: attempt 0 is the plain name, a later
/// attempt adds its number, for when the earlier names are taken.
pub fn file_path(url: &str, attempt: u64) -> (r: String)
    ensures
        r@ == saved_name(url@, attempt as nat),
{
    let segment = url_last_segment(url);
    let name = sanitize(&segment);
    let (stem, ext) = split_name(name);
    let mut out: Vec<char> = vec!['v', 's', 'd', '_', 'c', 'o', 'l', 'l', 'e', 'c', 't', '_'];
    push_all(&mut out, &stem);
    if attempt > 0 {
        out.push('_');
        out.push('(');
        push_decimal(&mut out, attempt);
        out.push(')');
    }
    out.push('.');
    push_all(&mut out, &ext);
    assert(out@ =~= saved_name(url@, attempt as nat));
    string_of_chars(&out)
}

// ---------------------------------------------------------------- bodies

/// What `openssl::base64::decode_block` gives for the text `s`: the decoded
/// bytes, or `None` where it rejects the text.
pub uninterp spec fn base64_block_decoded(s: Seq<char>) -> Option<Seq<u8>>;

/// Relies on `openssl::base64::decode_block`: decodes base64 text (surrounding
/// whitespace trimmed; the empty text gives no bytes). It asserts that the
/// text is at most `c_int::MAX` bytes long.
#[verifier::external_body]
fn decode_base64_block(s: &str) -> (r: Option<Vec<u8>>)
    requires
        s.spec_bytes().len() <= 0x7fff_ffff,
    ensures
        r is Some <==> base64_block_decoded(s@) is Some,
        r is Some ==> base64_block_decoded(s@) == Some(r->0@),
        s@.len() == 0 ==> r is Some && r->0@.len() == 0,
{
    openssl::base64::decode_block(s).ok()
}

/// The bytes a saved response holds: its body as text, or the body
/// base64-decoded when the browser hands it over encoded; `None` when such a
/// body is not valid base64.
pub fn response_bytes(body: &str, base_64_encoded: bool) -> (r: Option<Vec<u8>>)
    requires
        base_64_encoded ==> body.spec_bytes().len() <= 0x7fff_ffff,
    ensures
        base_64_encoded ==> (r is Some == base64_block_decoded(body@) is Some),
        base_64_encoded ==> (r matches Some(v) ==> base64_block_decoded(body@) == Some(v@)),
        !base_64_encoded ==> (r matches Some(v) && v@ == body.spec_bytes()),
{
    if base_64_encoded {
        decode_base64_block(body)
    } else {
        Some(slice_to_vec(body.as_bytes()))
    }
}

} // verus!
