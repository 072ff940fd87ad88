//! The download engine's decisions: classifying and rewriting asset URLs to
//! their mirror hosts, reading the content-length probe, naming the
//! destination file, the skip-existing heuristic, and the progress counter.

use vstd::prelude::*;
use vstd::string::*;
use crate::config::UrlError;
use crate::scan::{
    is_first_index_from, is_last_index_of, find_char_from, rfind_char, str_eq,
    lemma_first_index_from_unique, lemma_last_index_of_unique,
};

verus! {

/// Errors of the streaming download.
#[derive(Clone, Copy, PartialEq, Eq, Structural, Debug)]
pub enum DownloadError {
    /// The metadata probe got a non-success response, carrying its status.
    RemoteFetch(u16),
}

/// `p` is the leftmost position where the text `https://` occurs in `s`.
pub open spec fn is_first_scheme_at(s: Seq<char>, p: int) -> bool {
    &&& 0 <= p
    &&& p + 8 <= s.len()
    &&& s.subrange(p, p + 8) == "https://"@
    &&& forall|t: int| 0 <= t < p ==> #[trigger] s.subrange(t, t + 8) != "https://"@
}

pub proof fn lemma_first_scheme_unique(s: Seq<char>, p: int, q: int)
    requires
        is_first_scheme_at(s, p),
        is_first_scheme_at(s, q),
    ensures
        p == q,
{
    if p < q {
        assert(s.subrange(p, p + 8) != "https://"@);
    }
    if q < p {
        assert(s.subrange(q, q + 8) != "https://"@);
    }
}

/// The mirror counterpart of an allow-listed asset host.
pub open spec fn mirror_asset_host(host: Seq<char>) -> Option<Seq<char>> {
    if host == "codeload.github.com"@ {
        Some("download.fastgit.org"@)
    } else if host == "github.com"@ {
        Some("download.fastgit.org"@)
    } else if host == "raw.githubusercontent.com"@ {
        Some("raw.fastgit.org"@)
    } else {
        None
    }
}

/// What rewriting an asset URL produces: the authority between the scheme
/// separator and the next `/` is replaced by its mirror counterpart; the
/// scheme, path and query are untouched; hosts off the allow-list are
/// rejected rather than passed through.
pub open spec fn rewrite_spec(s: Seq<char>) -> Result<Seq<char>, UrlError> {
    if exists|p: int| is_first_scheme_at(s, p) {
        let p = choose|p: int| is_first_scheme_at(s, p);
        if exists|q: int| #[trigger] is_first_index_from(s, '/', p + 8, q) {
            let q = choose|q: int| #[trigger] is_first_index_from(s, '/', p + 8, q);
            match mirror_asset_host(s.subrange(p + 8, q)) {
                Some(m) => Ok(s.subrange(0, p + 8) + m + s.subrange(q, s.len() as int)),
                None => Err(UrlError::UnsupportedUrl),
            }
        } else {
            Err(UrlError::Parse)
        }
    } else {
        Err(UrlError::Parse)
    }
}

/// Leftmost occurrence of the scheme separator `https://`.
fn find_scheme(s: &str) -> (r: Option<usize>)
    ensures
        match r {
            Some(p) => is_first_scheme_at(s@, p as int),
            None => forall|t: int|
                0 <= t && t + 8 <= s@.len() ==> #[trigger] s@.subrange(t, t + 8) != "https://"@,
        },
{
    let n = s.unicode_len();
    if n < 8 {
        return None;
    }
    let mut p: usize = 0;
    while p <= n - 8
        invariant
            8 <= n == s@.len(),
            p <= n - 7,
            forall|t: int| 0 <= t < p ==> #[trigger] s@.subrange(t, t + 8) != "https://"@,
        decreases n - p,
    {
        let cand = s.substring_char(p, p + 8);
        if str_eq(cand, "https://") {
            return Some(p);
        }
        p = p + 1;
    }
    None
}

/// Rewrites a downloadable-asset URL to its mirror-host equivalent.
pub fn replace_url(url: &str) -> (r: Result<String, UrlError>)
    ensures
        match r {
            Ok(u) => rewrite_spec(url@) == Ok::<Seq<char>, UrlError>(u@),
            Err(e) => rewrite_spec(url@) == Err::<Seq<char>, UrlError>(e),
        },
{
    let n = url.unicode_len();
    let p = match find_scheme(url) {
        Some(p) => p,
        None => {
            return Err(UrlError::Parse);
        },
    };
    let q = match find_char_from(url, '/', p + 8) {
        Some(q) => q,
        None => {
            return Err(UrlError::Parse);
        },
    };
    proof {
        assert(exists|p0: int| is_first_scheme_at(url@, p0));
        let p0 = choose|p0: int| is_first_scheme_at(url@, p0);
        lemma_first_scheme_unique(url@, p0, p as int);
        assert(exists|q0: int| #[trigger] is_first_index_from(url@, '/', p as int + 8, q0));
        let q0 = choose|q0: int| #[trigger] is_first_index_from(url@, '/', p as int + 8, q0);
        lemma_first_index_from_unique(url@, '/', p as int + 8, q0, q as int);
    }
    let host = url.substring_char(p + 8, q);
    let mirror: &str = if str_eq(host, "codeload.github.com") {
        "download.fastgit.org"
    } else if str_eq(host, "github.com") {
        "download.fastgit.org"
    } else if str_eq(host, "raw.githubusercontent.com") {
        "raw.fastgit.org"
    } else {
        return Err(UrlError::UnsupportedUrl);
    };
    let prefix = url.substring_char(0, p + 8);
    let suffix = url.substring_char(q, n);
    Ok(String::from_str(prefix).concat(mirror).concat(suffix))
}

/// The destination file name: the text after the final `/`, or a fixed
/// fallback where the URL has no non-empty final segment.
pub open spec fn file_name_spec(s: Seq<char>) -> Seq<char> {
    if exists|j: int| is_last_index_of(s, '/', j) {
        let j = choose|j: int| is_last_index_of(s, '/', j);
        if j + 1 < s.len() {
            s.subrange(j + 1, s.len() as int)
        } else {
            "tmp.bin"@
        }
    } else {
        "tmp.bin"@
    }
}

/// Derives the destination file name from an asset URL.
pub fn download_file_name(url: &str) -> (r: String)
    ensures
        r@ == file_name_spec(url@),
{
    let n = url.unicode_len();
    match rfind_char(url, '/') {
        Some(j) => {
            proof {
                assert(exists|j0: int| is_last_index_of(url@, '/', j0));
                let j0 = choose|j0: int| is_last_index_of(url@, '/', j0);
                lemma_last_index_of_unique(url@, '/', j0, j as int);
            }
            if j + 1 < n {
                url.substring_char(j + 1, n).to_owned()
            } else {
                String::from_str("tmp.bin")
            }
        },
        None => String::from_str("tmp.bin"),
    }
}

/// A decimal digit, as the content-length header carries them.
pub open spec fn is_dec_digit(c: char) -> bool {
    48 <= c as u32 <= 57
}

/// The value of a digit string read in base ten.
pub open spec fn dec_val(s: Seq<char>) -> int
    decreases s.len(),
{
    if s.len() == 0 {
        0
    } else {
        dec_val(s.drop_last()) * 10 + (s.last() as u32 - 48)
    }
}

/// The digit text of a decimal: everything after an optional leading `+`.
pub open spec fn dec_body(s: Seq<char>) -> Seq<char> {
    if s.len() > 0 && s[0] == '+' {
        s.subrange(1, s.len() as int)
    } else {
        s
    }
}

/// Every character is a decimal digit.
pub open spec fn all_dec_digits(s: Seq<char>) -> bool {
    forall|k: int| 0 <= k < s.len() ==> is_dec_digit(#[trigger] s[k])
}

/// What parsing an unsigned decimal out of a string produces: an optional
/// leading `+`, then at least one digit and nothing else, with a value that
/// fits; anything else is rejected.
pub open spec fn parse_u64_spec(s: Seq<char>) -> Option<u64> {
    if dec_body(s).len() > 0 && all_dec_digits(dec_body(s)) && dec_val(dec_body(s)) <= u64::MAX {
        Some(dec_val(dec_body(s)) as u64)
    } else {
        None
    }
}

/// Once a digit prefix is already too large, any longer prefix is too.
proof fn lemma_dec_val_grows(s: Seq<char>, l: int)
    requires
        0 <= l <= s.len(),
        dec_val(s.subrange(0, l)) > u64::MAX as int,
    ensures
        dec_val(s) > u64::MAX as int,
    decreases s.len() - l,
{
    if l == s.len() {
        assert(s.subrange(0, l) =~= s);
    } else {
        let t = s.subrange(0, l + 1);
        assert(t.drop_last() =~= s.subrange(0, l));
        assert(t.last() == s[l]);
        assert(dec_val(t) > u64::MAX as int);
        lemma_dec_val_grows(s, l + 1);
    }
}

/// Parses an unsigned decimal, as the content-length header is read.
pub fn parse_u64(s: &str) -> (r: Option<u64>)
    ensures
        r == parse_u64_spec(s@),
{
    let n = s.unicode_len();
    let start: usize = if n > 0 && s.get_char(0) == '+' {
        1
    } else {
        0
    };
    let ghost body: Seq<char> = dec_body(s@);
    proof {
        assert(body =~= s@.subrange(start as int, n as int));
    }
    if n == start {
        return None;
    }
    let mut i = start;
    let mut acc: u64 = 0;
    while i < n
        invariant
            start <= i <= n,
            n == s@.len(),
            body == s@.subrange(start as int, n as int),
            body == dec_body(s@),
            forall|k: int| 0 <= k < i - start ==> is_dec_digit(#[trigger] body[k]),
            acc as int == dec_val(body.subrange(0, i - start)),
        decreases n - i,
    {
        let c = s.get_char(i);
        let v = c as u32;
        if v < 48 || v > 57 {
            proof {
                assert(body[i - start] == s@[i as int]);
                assert(!all_dec_digits(body));
            }
            return None;
        }
        let d: u64 = (v - 48) as u64;
        proof {
            let t = body.subrange(0, i - start + 1);
            assert(t.drop_last() =~= body.subrange(0, i - start));
            assert(t.last() == body[i - start]);
            assert(body[i - start] == s@[i as int]);
            assert(dec_val(t) == acc as int * 10 + d);
        }
        if acc > 1844674407370955161u64 || (acc == 1844674407370955161u64 && d > 5) {
            proof {
                assert(dec_val(body.subrange(0, i - start + 1)) > u64::MAX as int);
                lemma_dec_val_grows(body, i - start + 1);
            }
            return None;
        }
        acc = acc * 10 + d;
        i = i + 1;
    }
    proof {
        assert(body.subrange(0, n - start) =~= body);
    }
    Some(acc)
}

/// Reads the outcome of the metadata probe: on success the parsed content
/// length (zero where the header is absent or unreadable), on failure the
/// remote status as a fatal error.
pub fn probe_total(success: bool, content_length: Option<&str>, status: u16) -> (r: Result<
    u64,
    DownloadError,
>)
    ensures
        success ==> r == Ok::<u64, DownloadError>(
            match content_length {
                Some(h) => match parse_u64_spec(h@) {
                    Some(v) => v,
                    None => 0u64,
                },
                None => 0u64,
            },
        ),
        !success ==> r == Err::<u64, DownloadError>(DownloadError::RemoteFetch(status)),
{
    if success {
        match content_length {
            Some(h) => match parse_u64(h) {
                Some(v) => Ok(v),
                None => Ok(0),
            },
            None => Ok(0),
        }
    } else {
        Err(DownloadError::RemoteFetch(status))
    }
}

/// What the engine does after the probe: an existing destination file means
/// the transfer is treated as already complete at that file's size, and only
/// a missing one is streamed.
#[derive(Clone, Copy, PartialEq, Eq, Structural, Debug)]
pub enum TransferAction {
    SkipExisting(u64),
    Stream,
}

/// Decides between skipping and streaming, from the destination's state.
pub fn plan_transfer(file_exists: bool, existing_size: u64) -> (r: TransferAction)
    ensures
        file_exists ==> r == TransferAction::SkipExisting(existing_size),
        !file_exists ==> r == TransferAction::Stream,
{
    if file_exists {
        TransferAction::SkipExisting(existing_size)
    } else {
        TransferAction::Stream
    }
}

/// The progress counter the streaming loop advances chunk by chunk.
#[derive(Clone, Copy, PartialEq, Eq, Structural, Debug)]
pub struct Progress {
    pub total: u64,
    pub current: u64,
}

impl Progress {
    /// A fresh counter against the probed total.
    pub fn new(total: u64) -> (r: Progress)
        ensures
            r.total == total,
            r.current == 0,
    {
        Progress { total, current: 0 }
    }

    /// Advances by one chunk's length, saturating at the counter's capacity.
    pub fn advance(&mut self, n: u64)
        ensures
            final(self).total == old(self).total,
            final(self).current == (if old(self).current + n <= u64::MAX {
                (old(self).current + n) as u64
            } else {
                u64::MAX
            }),
    {
        if n <= u64::MAX - self.current {
            self.current = self.current + n;
        } else {
            self.current = u64::MAX;
        }
    }

    /// The terminal progress state: the counter stands at the total.
    pub fn finish(&mut self)
        ensures
            final(self).total == old(self).total,
            final(self).current == old(self).total,
    {
        self.current = self.total;
    }
}

} // verus!
