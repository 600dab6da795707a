//! Where the caches live: a local directory or an S3 bucket.
//!
//! Both cache tiers — the builder's input cache
//! (`{texture,heightmap,normals}/z/x/y.png` plus `.404` markers) and the
//! server's output cache (`glb/{fingerprint}/z/x/y.glb`) — address entries by
//! `/`-separated keys and go through one [`Store`]. [`LocalStore`] maps keys
//! to files under a root directory; [`S3Store`] maps them to objects under an
//! optional key prefix, so one bucket can back any number of stateless server
//! replicas.
//!
//! [`open`] picks the backend from a spec string: `s3://bucket[/prefix]` or
//! a directory path.

use crate::error::{Error, ErrorView};
use crate::text;
use vstd::prelude::*;

verus! {

/// A flat key → bytes store with atomic publication. See the module docs.
/// Nothing is promised of what an implementation returns.
pub trait Store {
    /// The bytes at `key`, or `None` when there is no such entry.
    fn get(&self, key: &str) -> Result<Option<Vec<u8>>, Error>;

    /// Whether `key` exists (an empty entry counts).
    fn contains(&self, key: &str) -> Result<bool, Error>;

    /// Publish `bytes` at `key` atomically: a concurrent reader sees the
    /// previous entry or the new one, never a partial write.
    fn put(&self, key: &str, bytes: &[u8]) -> Result<(), Error>;

    /// Remove `key`; a missing entry is not an error.
    fn delete(&self, key: &str) -> Result<(), Error>;

    /// Every key under `prefix` (recursively), sorted.
    fn list(&self, prefix: &str) -> Result<Vec<String>, Error>;

    /// Human-readable location for logs: `.cache`, `s3://bucket/prefix`.
    fn location(&self) -> String;
}

// -- local directory ---------------------------------------------------------------

/// Keys as files under a root directory: `texture/5/3/4.png` →
/// `{root}/texture/5/3/4.png`.
#[derive(Clone, Debug)]
pub struct LocalStore {
    root: String,
}

/// A path with one more component.
pub open spec fn path_push(path: Seq<char>, part: Seq<char>) -> Seq<char> {
    if path.len() == 0 || path.last() == '/' {
        path + part
    } else {
        path.push('/') + part
    }
}

/// A path with more components, empty ones left out.
pub open spec fn path_extend(path: Seq<char>, parts: Seq<Seq<char>>) -> Seq<char>
    decreases parts.len(),
{
    if parts.len() == 0 {
        path
    } else {
        let before = path_extend(path, parts.drop_last());
        if parts.last().len() == 0 {
            before
        } else {
            path_push(before, parts.last())
        }
    }
}

impl LocalStore {
    /// The root directory.
    pub closed spec fn root_spec(self) -> Seq<char> {
        self.root@
    }

    /// The file a key maps to.
    pub open spec fn path_spec(self, key: Seq<char>) -> Seq<char> {
        path_extend(self.root_spec(), text::pieces(key, '/'))
    }

    /// A store rooted at `root` (need not exist yet).
    pub fn new(root: &str) -> (s: LocalStore)
        ensures
            s.root_spec() == root@,
    {
        LocalStore { root: root.to_owned() }
    }

    /// The root directory.
    pub fn root(&self) -> (s: &str)
        ensures
            s@ == self.root_spec(),
    {
        self.root.as_str()
    }

    /// The file a key maps to.
    pub fn path(&self, key: &str) -> (out: String)
        ensures
            out@ == self.path_spec(key@),
    {
        let parts: Vec<String> = text::split(key, '/');
        let ghost all = text::pieces(key@, '/');
        let mut out: String = self.root.as_str().to_owned();
        let mut ends: bool = {
            let chars: Vec<char> = text::chars_of(self.root.as_str());
            chars.len() == 0 || chars[chars.len() - 1] == '/'
        };
        let mut k: usize = 0;
        assert(all.take(0) =~= Seq::empty());
        proof {
            text::law_pieces_rejoin(key@, '/');
        }
        while k < parts.len()
            invariant
                k <= parts@.len(),
                text::views(parts@) == all,
                forall|i: int| 0 <= i < all.len() ==> !(#[trigger] all[i]).contains('/'),
                out@ == path_extend(self.root@, all.take(k as int)),
                ends == (out@.len() == 0 || out@.last() == '/'),
            decreases parts@.len() - k,
        {
            let part: &str = parts[k].as_str();
            assert(all[k as int] == part@);
            assert(all.take(k + 1).drop_last() =~= all.take(k as int));
            assert(all.take(k + 1).last() == part@);
            let count: usize = text::chars_of(part).len();
            if count > 0 {
                assert(part@.last() != '/') by {
                    assert(!all[k as int].contains('/'));
                    if part@.last() == '/' {
                        assert(part@[part@.len() - 1] == '/');
                        assert(part@.contains('/'));
                    }
                }
                if !ends {
                    out.push('/');
                }
                out.append(part);
                ends = false;
            }
            k = k + 1;
        }
        assert(all.take(k as int) =~= all);
        out
    }
}

// -- S3 ----------------------------------------------------------------------------

/// Keys as objects in one bucket under an optional prefix:
/// `texture/5/3/4.png` → `s3://bucket/{prefix/}texture/5/3/4.png`.
#[derive(Clone, Debug)]
pub struct S3Store {
    bucket: String,
    prefix: String,
}

/// An [`Error::Io`] whose "path" is an S3 URL or bucket name.
pub open spec fn bad_spec(what: Seq<char>, reason: Seq<char>) -> ErrorView {
    ErrorView::Io { path: what, reason }
}

/// An [`Error::Io`] whose "path" is an S3 URL or bucket name.
pub fn bad(what: &str, reason: &str) -> (e: Error)
    ensures
        e@ == bad_spec(what@, reason@),
{
    Error::Io { path: what.to_owned(), reason: reason.to_owned() }
}

/// A prefix as keys carry it: no `/` around it, and one behind it unless it
/// is empty.
pub open spec fn prefix_spec(prefix: Seq<char>) -> Seq<char> {
    let bare = text::without_trailing(text::without_leading(prefix, '/'), '/');
    if bare.len() == 0 {
        bare
    } else {
        bare.push('/')
    }
}

/// The bucket of what follows `s3://`: all before the first `/`.
pub open spec fn bucket_part(rest: Seq<char>) -> Seq<char> {
    text::pieces(rest, '/')[0]
}

/// The prefix of what follows `s3://`: all behind the first `/`.
pub open spec fn prefix_part(rest: Seq<char>) -> Seq<char> {
    let bucket = bucket_part(rest);
    if bucket.len() < rest.len() {
        rest.skip(bucket.len() as int + 1)
    } else {
        Seq::empty()
    }
}

proof fn lemma_first_piece(s: Seq<char>)
    ensures
        bucket_part(s).len() <= s.len(),
        s.take(bucket_part(s).len() as int) == bucket_part(s),
        bucket_part(s).len() < s.len() ==> s[bucket_part(s).len() as int] == '/',
        forall|i: int| 0 <= i < bucket_part(s).len() ==> s[i] != '/',
    decreases s.len(),
{
    text::lemma_pieces_nonempty(s, '/');
    if s.len() > 0 {
        let front = s.drop_last();
        lemma_first_piece(front);
        text::lemma_pieces_nonempty(front, '/');
        let before = text::pieces(front, '/');
        let b = bucket_part(front);
        if s.last() == '/' {
            assert(bucket_part(s) == b);
            assert(s.take(b.len() as int) =~= front.take(b.len() as int));
            assert(b.len() < front.len() ==> s[b.len() as int] == front[b.len() as int]);
        } else if before.len() == 1 {
            lemma_one_piece_is_all(front);
            assert(b =~= front);
            assert(bucket_part(s) =~= s);
            assert(s.take(s.len() as int) =~= s);
        } else {
            assert(bucket_part(s) == b);
            lemma_many_pieces(front);
            assert(s.take(b.len() as int) =~= front.take(b.len() as int));
        }
        assert forall|i: int| 0 <= i < bucket_part(s).len() implies s[i] != '/' by {
            if i < b.len() {
                assert(s[i] == front[i]);
            }
        }
    } else {
        assert(s.take(0) =~= bucket_part(s));
    }
}

proof fn lemma_one_piece_is_all(s: Seq<char>)
    requires
        text::pieces(s, '/').len() == 1,
    ensures
        text::pieces(s, '/')[0] == s,
    decreases s.len(),
{
    if s.len() > 0 {
        let front = s.drop_last();
        text::lemma_pieces_nonempty(front, '/');
        if s.last() != '/' {
            lemma_one_piece_is_all(front);
            assert(front.push(s.last()) =~= s);
        }
    } else {
        assert(s =~= Seq::empty());
    }
}

proof fn lemma_many_pieces(s: Seq<char>)
    requires
        text::pieces(s, '/').len() > 1,
    ensures
        text::pieces(s, '/')[0].len() < s.len(),
    decreases s.len(),
{
    if s.len() > 0 {
        let front = s.drop_last();
        text::lemma_pieces_nonempty(front, '/');
        let before = text::pieces(front, '/');
        if before.len() > 1 {
            lemma_many_pieces(front);
        } else {
            lemma_one_piece_is_all(front);
        }
    }
}

impl S3Store {
    /// The bucket name.
    pub closed spec fn bucket_spec(self) -> Seq<char> {
        self.bucket@
    }

    /// `""` or `"some/prefix/"`.
    pub closed spec fn prefix(self) -> Seq<char> {
        self.prefix@
    }

    /// The full object key for a store key.
    pub open spec fn object_key_spec(self, key: Seq<char>) -> Seq<char> {
        self.prefix() + text::without_leading(key, '/')
    }

    /// `s3://bucket/full-key`.
    pub open spec fn url_spec(self, key: Seq<char>) -> Seq<char> {
        "s3://"@ + self.bucket_spec() + "/"@ + self.object_key_spec(key)
    }

    /// Parse an `s3://bucket[/prefix]` URL.
    pub fn from_url(url: &str) -> (r: Result<S3Store, Error>)
        ensures
            ({
                let rest = url@.skip("s3://"@.len() as int);
                if !text::has_prefix(url@, "s3://"@) {
                    r is Err && r->Err_0@ == bad_spec(url@, "expected s3://bucket[/prefix]"@)
                } else if bucket_part(rest).len() == 0 {
                    r is Err && r->Err_0@ == bad_spec(url@, "missing bucket name"@)
                } else {
                    r is Ok && r->Ok_0.bucket_spec() == bucket_part(rest) && r->Ok_0.prefix()
                        == prefix_spec(prefix_part(rest))
                }
            }),
    {
        match text::strip_prefix(url, "s3://") {
            None => Err(bad(url, "expected s3://bucket[/prefix]")),
            Some(rest) => {
                let chars: Vec<char> = text::chars_of(rest.as_str());
                proof {
                    lemma_first_piece(rest@);
                }
                let mut cut: usize = 0;
                while cut < chars.len() && chars[cut] != '/'
                    invariant
                        cut <= chars@.len(),
                        chars@ == rest@,
                        cut <= bucket_part(rest@).len(),
                        bucket_part(rest@).len() <= rest@.len(),
                        bucket_part(rest@).len() < rest@.len() ==> rest@[bucket_part(
                            rest@,
                        ).len() as int] == '/',
                    decreases chars@.len() - cut,
                {
                    cut = cut + 1;
                }
                assert(cut == bucket_part(rest@).len());
                if cut == 0 {
                    return Err(bad(url, "missing bucket name"));
                }
                let bucket: String = text::string_of(&chars, 0, cut);
                assert(bucket@ =~= bucket_part(rest@));
                let from: usize = if cut < chars.len() {
                    cut + 1
                } else {
                    cut
                };
                let prefix: String = text::string_of(&chars, from, chars.len());
                assert(prefix@ =~= prefix_part(rest@));
                Ok(S3Store::connect(bucket.as_str(), prefix.as_str()))
            },
        }
    }

    /// Address `bucket`, keying everything under `prefix` (may be empty).
    pub fn connect(bucket: &str, prefix: &str) -> (s: S3Store)
        ensures
            s.bucket_spec() == bucket@,
            s.prefix() == prefix_spec(prefix@),
    {
        let front: String = text::trim_leading(prefix, '/');
        let mut bare: String = text::trim_trailing(front.as_str(), '/');
        let count: usize = text::chars_of(bare.as_str()).len();
        if count > 0 {
            bare.push('/');
        }
        S3Store { bucket: bucket.to_owned(), prefix: bare }
    }

    /// The bucket name.
    pub fn bucket(&self) -> (s: &str)
        ensures
            s@ == self.bucket_spec(),
    {
        self.bucket.as_str()
    }

    /// The full object key for a store key.
    pub fn object_key(&self, key: &str) -> (out: String)
        ensures
            out@ == self.object_key_spec(key@),
    {
        let bare: String = text::trim_leading(key, '/');
        text::join2(self.prefix.as_str(), bare.as_str())
    }

    /// `s3://bucket/full-key` — how a key appears in errors and logs.
    pub fn url(&self, key: &str) -> (out: String)
        ensures
            out@ == self.url_spec(key@),
    {
        let object: String = self.object_key(key);
        let mut out: String = text::join3("s3://", self.bucket.as_str(), "/");
        out.append(object.as_str());
        out
    }

    /// `s3://bucket/prefix/`.
    pub fn location(&self) -> (out: String)
        ensures
            out@ == "s3://"@ + self.bucket_spec() + "/"@ + self.prefix(),
    {
        let mut out: String = text::join3("s3://", self.bucket.as_str(), "/");
        out.append(self.prefix.as_str());
        out
    }

    /// The store key of an object, or `None` for one outside the prefix.
    pub fn store_key(&self, object: &str) -> (r: Option<String>)
        ensures
            r is Some <==> text::has_prefix(object@, self.prefix()),
            r is Some ==> r->0@ == object@.skip(self.prefix().len() as int),
    {
        text::strip_prefix(object, self.prefix.as_str())
    }
}

/// The S3 answer to a read means that there is no such object: a 404, or —
/// which is what S3 sends without `s3:ListBucket` on the bucket — a 403 that
/// carries no code or `AccessDenied`.
pub open spec fn is_missing_spec(status: Option<u16>, code: Option<Seq<char>>) -> bool {
    status == Some(404u16) || (status == Some(403u16) && (code is None || code->0
        == "AccessDenied"@))
}

/// An optional string as characters.
pub open spec fn text_view(s: Option<String>) -> Option<Seq<char>> {
    match s {
        Some(s) => Some(s@),
        None => None,
    }
}

/// Whether S3 answered 404. A delete of what is not there has succeeded.
pub fn is_404(status: Option<u16>) -> (r: bool)
    ensures
        r == (status == Some(404u16)),
{
    match status {
        Some(s) => s == 404,
        None => false,
    }
}

/// Whether the S3 answer to a read means that there is no such object.
/// HEAD responses carry no body, so no error code: a bare 403 counts.
pub fn is_missing(status: Option<u16>, code: &Option<String>) -> (r: bool)
    ensures
        r == is_missing_spec(status, text_view(*code)),
{
    if is_404(status) {
        return true;
    }
    match status {
        None => false,
        Some(s) => {
            if s != 403 {
                return false;
            }
            match code {
                None => true,
                Some(c) => text::same(c.as_str(), "AccessDenied"),
            }
        },
    }
}

/// What the SDK told of a failed request.
pub struct SdkFailure {
    /// HTTP status of the response, if there was one.
    pub status: Option<u16>,
    /// The service answered with an error.
    pub service: bool,
    /// The service's error code.
    pub code: Option<String>,
    /// The service's error message.
    pub message: Option<String>,
    /// The messages of the error and its causes, outermost first.
    pub chain: Vec<String>,
}

/// Messages joined by `": "`.
pub open spec fn chained(messages: Seq<Seq<char>>) -> Seq<char>
    decreases messages.len(),
{
    if messages.len() == 0 {
        Seq::empty()
    } else if messages.len() == 1 {
        messages[0]
    } else {
        chained(messages.drop_last()) + ": "@ + messages.last()
    }
}

/// A readable reason: `Code: message` for service errors, the status of a
/// service error without a code, else the chain of messages.
pub open spec fn reason_spec(f: SdkFailure) -> Seq<char> {
    match f.code {
        Some(code) => code@ + ": "@ + match f.message {
            Some(m) => m@,
            None => Seq::empty(),
        },
        None => if f.service && f.status is Some {
            "HTTP "@ + text::decimal_text(f.status->0 as nat)
        } else {
            chained(text::views(f.chain@))
        },
    }
}

/// The library's error for a failed request.
pub fn sdk_err(url: &str, f: &SdkFailure) -> (e: Error)
    ensures
        e@ == bad_spec(url@, reason_spec(*f)),
{
    let reason: String = match &f.code {
        Some(code) => {
            let mut out: String = text::join2(code.as_str(), ": ");
            match &f.message {
                Some(m) => {
                    out.append(m.as_str());
                },
                None => {
                    assert(out@ =~= code@ + ": "@ + Seq::empty());
                },
            }
            out
        },
        None => match f.status {
            Some(status) => if f.service {
                let n: String = text::decimal(status as u64);
                text::join2("HTTP ", n.as_str())
            } else {
                chain(&f.chain)
            },
            None => chain(&f.chain),
        },
    };
    Error::Io { path: url.to_owned(), reason }
}

fn chain(messages: &Vec<String>) -> (out: String)
    ensures
        out@ == chained(text::views(messages@)),
{
    let ghost all = text::views(messages@);
    let mut out: String = String::new();
    let mut k: usize = 0;
    assert(all.take(0) =~= Seq::empty());
    while k < messages.len()
        invariant
            k <= messages@.len(),
            all == text::views(messages@),
            out@ == chained(all.take(k as int)),
        decreases messages@.len() - k,
    {
        let m: &str = messages[k].as_str();
        assert(all.take(k + 1).drop_last() =~= all.take(k as int));
        assert(all.take(k + 1).last() == m@);
        if k > 0 {
            out.append(": ");
        }
        out.append(m);
        assert(out@ =~= chained(all.take(k + 1)));
        k = k + 1;
    }
    assert(all.take(k as int) =~= all);
    out
}

/// Content type by the key's extension.
pub open spec fn content_type_spec(key: Seq<char>) -> Seq<char> {
    let extension = text::pieces(key, '.').last();
    if extension == "glb"@ {
        "model/gltf-binary"@
    } else if extension == "png"@ {
        "image/png"@
    } else if extension == "jpg"@ || extension == "jpeg"@ {
        "image/jpeg"@
    } else {
        "application/octet-stream"@
    }
}

/// Content type recorded on uploads, from the key's extension. Purely
/// informational — readers sniff bytes — but it lets the bucket be browsed
/// or fronted by a CDN sensibly.
pub fn content_type(key: &str) -> (s: &'static str)
    ensures
        s@ == content_type_spec(key@),
{
    let parts: Vec<String> = text::split(key, '.');
    let last: &str = parts[parts.len() - 1].as_str();
    assert(text::views(parts@).last() == last@);
    if text::same(last, "glb") {
        "model/gltf-binary"
    } else if text::same(last, "png") {
        "image/png"
    } else if text::same(last, "jpg") || text::same(last, "jpeg") {
        "image/jpeg"
    } else {
        "application/octet-stream"
    }
}

// -- certificates ------------------------------------------------------------------

/// The digit for six bits in the standard base64 alphabet.
pub open spec fn base64_digit(v: int) -> char {
    if v < 26 {
        ('A' as int + v) as char
    } else if v < 52 {
        ('a' as int + (v - 26)) as char
    } else if v < 62 {
        ('0' as int + (v - 52)) as char
    } else if v == 62 {
        '+'
    } else {
        '/'
    }
}

/// The base64 text of `bytes`: every three bytes are four digits of six
/// bits, high bits first; one or two bytes at the end are two or three
/// digits, filled up to four with `=`.
pub open spec fn base64_text(bytes: Seq<u8>) -> Seq<char>
    decreases bytes.len(),
{
    let a = bytes[0] as int;
    let b = bytes[1] as int;
    let c = bytes[2] as int;
    if bytes.len() == 0 {
        Seq::empty()
    } else if bytes.len() == 1 {
        seq![base64_digit(a / 4), base64_digit(a % 4 * 16), '=', '=']
    } else if bytes.len() == 2 {
        seq![base64_digit(a / 4), base64_digit(a % 4 * 16 + b / 16), base64_digit(b % 16 * 4), '=']
    } else {
        seq![
            base64_digit(a / 4),
            base64_digit(a % 4 * 16 + b / 16),
            base64_digit(b % 16 * 4 + c / 64),
            base64_digit(c % 64),
        ] + base64_text(bytes.skip(3))
    }
}

/// `aws_smithy_types::base64::encode`: base64 with the standard alphabet and
/// padding, without line breaks.
#[verifier::external_body]
fn base64(bytes: &[u8]) -> (out: String)
    ensures
        out@ == base64_text(bytes@),
{
    aws_smithy_types::base64::encode(bytes)
}

/// Text in lines of 64 characters.
pub open spec fn wrapped(s: Seq<char>) -> Seq<char>
    decreases s.len(),
{
    if s.len() == 0 {
        Seq::empty()
    } else if s.len() <= 64 {
        s.push('\n')
    } else {
        s.take(64).push('\n') + wrapped(s.skip(64))
    }
}

/// A PEM certificate block around base64 text.
pub open spec fn pem_spec(b64: Seq<char>) -> Seq<char> {
    "-----BEGIN CERTIFICATE-----\n"@ + wrapped(b64) + "-----END CERTIFICATE-----\n"@
}

/// A PEM certificate block around base64 text, in lines of 64 characters.
pub fn pem_block(b64: &str) -> (out: String)
    ensures
        out@ == pem_spec(b64@),
{
    let chars: Vec<char> = text::chars_of(b64);
    let total: usize = chars.len();
    let mut out: String = "-----BEGIN CERTIFICATE-----\n".to_owned();
    let ghost head = out@;
    let mut at: usize = 0;
    assert(b64@.skip(0) =~= b64@);
    assert(head + wrapped(b64@) =~= out@ + wrapped(b64@.skip(0)));
    while at < total
        invariant
            at <= total,
            total == chars@.len(),
            chars@ == b64@,
            head + wrapped(b64@) == out@ + wrapped(b64@.skip(at as int)),
        decreases total - at,
    {
        let to: usize = if total - at <= 64 {
            total
        } else {
            at + 64
        };
        let line: String = text::string_of(&chars, at, to);
        let ghost rest = b64@.skip(at as int);
        let ghost before = out@;
        assert(line@ =~= rest.take(to - at));
        assert(rest.skip(to - at) =~= b64@.skip(to as int));
        out.append(line.as_str());
        out.push('\n');
        proof {
            if rest.len() <= 64 {
                assert(rest.take(to - at) =~= rest);
                assert(wrapped(b64@.skip(to as int)) =~= Seq::empty());
            }
            assert(before + wrapped(rest) =~= out@ + wrapped(b64@.skip(to as int)));
        }
        at = to;
    }
    assert(b64@.skip(at as int) =~= Seq::empty());
    assert(out@ =~= head + wrapped(b64@));
    out.append("-----END CERTIFICATE-----\n");
    out
}

/// A DER certificate as PEM.
pub fn pem_certificate(der: &[u8]) -> (out: String)
    ensures
        out@ == pem_spec(base64_text(der@)),
{
    let b64: String = base64(der);
    pem_block(b64.as_str())
}

// -- choosing ----------------------------------------------------------------------

/// The store a spec names.
#[derive(Clone, Debug)]
pub enum Location {
    /// A directory.
    Local(LocalStore),
    /// A bucket.
    S3(S3Store),
}

/// Name the store of a spec: `s3://bucket[/prefix]` or a local directory,
/// created lazily on first write.
pub fn open(spec: &str) -> (r: Result<Location, Error>)
    ensures
        ({
            let rest = spec@.skip("s3://"@.len() as int);
            if !text::has_prefix(spec@, "s3://"@) {
                r is Ok && r->Ok_0 is Local && r->Ok_0->Local_0.root_spec() == spec@
            } else if bucket_part(rest).len() == 0 {
                r is Err && r->Err_0@ == bad_spec(spec@, "missing bucket name"@)
            } else {
                r is Ok && r->Ok_0 is S3 && r->Ok_0->S3_0.bucket_spec() == bucket_part(rest)
                    && r->Ok_0->S3_0.prefix() == prefix_spec(prefix_part(rest))
            }
        }),
{
    match text::strip_prefix(spec, "s3://") {
        Some(_) => match S3Store::from_url(spec) {
            Ok(s) => Ok(Location::S3(s)),
            Err(e) => Err(e),
        },
        None => Ok(Location::Local(LocalStore::new(spec))),
    }
}

impl Location {
    /// Human-readable location for logs: `.cache`, `s3://bucket/prefix/`.
    pub fn location(&self) -> (out: String)
        ensures
            match *self {
                Location::Local(s) => out@ == s.root_spec(),
                Location::S3(s) => out@ == "s3://"@ + s.bucket_spec() + "/"@ + s.prefix(),
            },
    {
        match self {
            Location::Local(s) => s.root().to_owned(),
            Location::S3(s) => s.location(),
        }
    }
}

// -- laws ------------------------------------------------------------------------

/// A key without a leading `/` comes back from its object.
pub proof fn law_object_keys_read_back(s: S3Store, key: Seq<char>)
    requires
        key.len() == 0 || key[0] != '/',
    ensures
        text::has_prefix(s.object_key_spec(key), s.prefix()),
        s.object_key_spec(key).skip(s.prefix().len() as int) == key,
{
    let object = s.object_key_spec(key);
    assert(text::without_leading(key, '/') == key);
    assert(object.take(s.prefix().len() as int) =~= s.prefix());
    assert(object.skip(s.prefix().len() as int) =~= key);
}

/// Base64 text holds no line break, so a certificate's lines without their
/// breaks are its base64 text.
pub proof fn law_certificate_lines_hold_the_text(der: Seq<u8>)
    ensures
        wrapped(base64_text(der)).filter(|c: char| c != '\n') == base64_text(der),
{
    lemma_base64_has_no_breaks(der);
    law_wrapping_adds_line_breaks_only(base64_text(der));
}

proof fn lemma_base64_has_no_breaks(bytes: Seq<u8>)
    ensures
        !base64_text(bytes).contains('\n'),
    decreases bytes.len(),
{
    let s = base64_text(bytes);
    if bytes.len() >= 3 {
        lemma_base64_has_no_breaks(bytes.skip(3));
    }
    if s.contains('\n') {
        let i = choose|i: int| 0 <= i < s.len() && s[i] == '\n';
        if i >= 4 {
            assert(base64_text(bytes.skip(3))[i - 4] == '\n');
        }
    }
}

/// Text without its wrapping's line breaks is the text that was wrapped.
pub proof fn law_wrapping_adds_line_breaks_only(b64: Seq<char>)
    requires
        !b64.contains('\n'),
    ensures
        wrapped(b64).filter(|c: char| c != '\n') == b64,
    decreases b64.len(),
{
    let keep = |c: char| c != '\n';
    if b64.len() == 0 {
        reveal(Seq::filter);
        assert(wrapped(b64).filter(keep) =~= b64);
    } else {
        let n: int = if b64.len() <= 64 {
            b64.len() as int
        } else {
            64
        };
        let line = b64.take(n);
        let rest = b64.skip(n);
        assert(!line.contains('\n')) by {
            if line.contains('\n') {
                let i = choose|i: int| 0 <= i < line.len() && line[i] == '\n';
                assert(b64[i] == '\n');
            }
        }
        assert(!rest.contains('\n')) by {
            if rest.contains('\n') {
                let i = choose|i: int| 0 <= i < rest.len() && rest[i] == '\n';
                assert(b64[i + n] == '\n');
            }
        }
        law_wrapping_adds_line_breaks_only(rest);
        assert(wrapped(b64) =~= line.push('\n') + wrapped(rest)) by {
            if b64.len() <= 64 {
                assert(line =~= b64);
                assert(wrapped(rest) =~= Seq::empty());
            }
        }
        Seq::filter_distributes_over_add(line.push('\n'), wrapped(rest), keep);
        lemma_keeps_line(line);
        assert(line + rest =~= b64);
    }
}

proof fn lemma_keeps_line(line: Seq<char>)
    requires
        !line.contains('\n'),
    ensures
        line.push('\n').filter(|c: char| c != '\n') == line,
    decreases line.len(),
{
    reveal(Seq::filter);
    let keep = |c: char| c != '\n';
    assert(line.push('\n').drop_last() =~= line);
    lemma_keeps_all(line);
}

proof fn lemma_keeps_all(line: Seq<char>)
    requires
        !line.contains('\n'),
    ensures
        line.filter(|c: char| c != '\n') == line,
    decreases line.len(),
{
    reveal(Seq::filter);
    if line.len() > 0 {
        let front = line.drop_last();
        assert(!front.contains('\n')) by {
            if front.contains('\n') {
                let i = choose|i: int| 0 <= i < front.len() && front[i] == '\n';
                assert(line[i] == '\n');
            }
        }
        lemma_keeps_all(front);
        assert(line.contains(line.last())) by {
            assert(line[line.len() - 1] == line.last());
        }
        assert(front.push(line.last()) =~= line);
    } else {
        assert(line.filter(|c: char| c != '\n') =~= line);
    }
}

/// A key under a directory is the directory, a slash and the key, as long as
/// no part of the key is empty.
pub proof fn law_files_lie_under_the_root(s: LocalStore, key: Seq<char>)
    requires
        s.root_spec().len() > 0,
        s.root_spec().last() != '/',
        forall|i: int|
            0 <= i < text::pieces(key, '/').len() ==> (#[trigger] text::pieces(key, '/')[i]).len()
                > 0,
    ensures
        s.path_spec(key) == s.root_spec() + "/"@ + key,
{
    reveal_strlit("/");
    let parts = text::pieces(key, '/');
    text::law_pieces_rejoin(key, '/');
    text::lemma_pieces_nonempty(key, '/');
    lemma_path(s.root_spec(), parts);
    assert(s.root_spec().push('/') + key =~= s.root_spec() + "/"@ + key);
}

proof fn lemma_path(root: Seq<char>, parts: Seq<Seq<char>>)
    requires
        root.len() > 0,
        root.last() != '/',
        parts.len() > 0,
        forall|i: int|
            0 <= i < parts.len() ==> (#[trigger] parts[i]).len() > 0 && !parts[i].contains('/'),
    ensures
        path_extend(root, parts) == root.push('/') + text::joined(parts, '/'),
        path_extend(root, parts).last() != '/',
    decreases parts.len(),
{
    let last = parts.last();
    assert(last.len() > 0 && !last.contains('/')) by {
        assert(parts[parts.len() - 1] == last);
    }
    assert(last.last() != '/') by {
        if last.last() == '/' {
            assert(last[last.len() - 1] == '/');
        }
    }
    let front = parts.drop_last();
    if parts.len() == 1 {
        assert(front =~= Seq::empty());
        assert(path_extend(root, front) == root);
        assert(path_extend(root, parts) =~= root.push('/') + parts[0]);
    } else {
        assert forall|i: int| 0 <= i < front.len() implies (#[trigger] front[i]).len() > 0
            && !front[i].contains('/') by {
            assert(front[i] == parts[i]);
        }
        lemma_path(root, front);
        let before = path_extend(root, front);
        assert(path_extend(root, parts) =~= before.push('/') + last);
        assert(before.push('/') + last =~= root.push('/') + (text::joined(front, '/').push('/')
            + last));
    }
    let out = path_extend(root, parts);
    assert(out.last() == last.last());
}

/// A prefix is used without the slashes around it and with one behind it;
/// without anything else it is empty.
pub proof fn law_prefixes_end_with_one_slash(prefix: Seq<char>)
    ensures
        ({
            let p = prefix_spec(prefix);
            &&& p.len() > 0 ==> p[0] != '/' && p.last() == '/' && p.len() >= 2 && p[p.len() - 2]
                != '/'
            &&& p.len() == 0 <==> forall|i: int| 0 <= i < prefix.len() ==> #[trigger] prefix[i]
                == '/'
            &&& prefix.len() > 0 && prefix[0] != '/' && prefix.last() != '/' ==> p == prefix.push(
                '/',
            )
        }),
{
    let front = text::without_leading(prefix, '/');
    text::law_cutting_leaves_the_rest(prefix, '/');
    text::law_cutting_leaves_the_rest(front, '/');
    let i = choose|i: int|
        {
            &&& 0 <= i <= prefix.len()
            &&& #[trigger] prefix.skip(i) == front
            &&& forall|k: int| 0 <= k < i ==> #[trigger] prefix[k] == '/'
        };
    let bare = text::without_trailing(front, '/');
    let m = choose|m: int|
        {
            &&& 0 <= m <= front.len()
            &&& #[trigger] front.take(m) == bare
            &&& forall|k: int| m <= k < front.len() ==> #[trigger] front[k] == '/'
        };
    if bare.len() > 0 {
        assert(bare[0] == front[0]);
        assert(front[0] == prefix[i]);
    } else if front.len() > 0 {
        assert(front[0] == '/');
    }
    if front.len() == 0 {
        assert(i == prefix.len());
    }
    if prefix.len() > 0 && prefix[0] != '/' && prefix.last() != '/' {
        assert(front == prefix);
        assert(bare == prefix);
    }
}

/// What follows `s3://` is a bucket up to the first slash, and behind it the
/// prefix.
pub proof fn law_buckets_end_at_the_first_slash(bucket: Seq<char>, prefix: Seq<char>)
    requires
        !bucket.contains('/'),
    ensures
        bucket_part(bucket) == bucket,
        prefix_part(bucket) == Seq::<char>::empty(),
        bucket_part(bucket + "/"@ + prefix) == bucket,
        prefix_part(bucket + "/"@ + prefix) == prefix,
{
    reveal_strlit("/");
    text::lemma_single_piece(bucket, '/');
    let slash = seq!['/'];
    let rest = bucket + "/"@ + prefix;
    assert(rest =~= bucket + slash + prefix);
    text::lemma_pieces_of_two(bucket, prefix, '/');
    assert(text::pieces(rest, '/')[0] == bucket);
    assert(rest.skip(bucket.len() as int + 1) =~= prefix);
}

/// An object that is not there reads as missing: 404 always does; 403 does
/// where S3 tells no more than that access is denied; nothing else does.
pub proof fn law_missing_objects(status: Option<u16>, code: Option<Seq<char>>)
    ensures
        status == Some(404u16) ==> is_missing_spec(status, code),
        status == Some(403u16) ==> (is_missing_spec(status, code) <==> code is None || code
            == Some("AccessDenied"@)),
        status != Some(404u16) && status != Some(403u16) ==> !is_missing_spec(status, code),
{
}

/// Uploads are labelled by their ending.
pub proof fn law_endings_tell_the_type(stem: Seq<char>)
    ensures
        content_type_spec(stem + ".glb"@) == "model/gltf-binary"@,
        content_type_spec(stem + ".png"@) == "image/png"@,
        content_type_spec(stem + ".jpg"@) == "image/jpeg"@,
        content_type_spec(stem + ".jpeg"@) == "image/jpeg"@,
        content_type_spec(stem + ".404"@) == "application/octet-stream"@,
        content_type_spec(stem + ".json"@) == "application/octet-stream"@,
{
    reveal_strlit("glb");
    reveal_strlit("png");
    reveal_strlit("jpg");
    reveal_strlit("jpeg");
    reveal_strlit(".glb");
    reveal_strlit(".png");
    reveal_strlit(".jpg");
    reveal_strlit(".jpeg");
    reveal_strlit(".404");
    reveal_strlit(".json");
    lemma_ending(stem, "glb"@);
    lemma_ending(stem, "png"@);
    lemma_ending(stem, "jpg"@);
    lemma_ending(stem, "jpeg"@);
    let none = seq!['4', '0', '4'];
    let json = seq!['j', 's', 'o', 'n'];
    lemma_ending(stem, none);
    lemma_ending(stem, json);
    let dot = seq!['.'];
    assert(stem + ".glb"@ =~= stem + dot + "glb"@);
    assert(stem + ".png"@ =~= stem + dot + "png"@);
    assert(stem + ".jpg"@ =~= stem + dot + "jpg"@);
    assert(stem + ".jpeg"@ =~= stem + dot + "jpeg"@);
    assert(stem + ".404"@ =~= stem + dot + none);
    assert(stem + ".json"@ =~= stem + dot + json);
    assert("glb"@[0] == 'g' && "png"@[0] == 'p' && "jpg"@.len() == 3 && "jpeg"@.len() == 4);
    assert("jpg"@[0] == 'j' && none[0] == '4' && json[1] == 's' && "jpeg"@[1] == 'p');
}

proof fn lemma_ending(stem: Seq<char>, ending: Seq<char>)
    requires
        !ending.contains('.'),
    ensures
        text::pieces(stem + seq!['.'] + ending, '.').last() == ending,
{
    text::lemma_pieces_of_two(stem, ending, '.');
    text::lemma_single_piece(ending, '.');
}

/// A certificate's text is in lines of 64 characters, the last of them as
/// long as what is left: a line ends behind every 64 characters and at the
/// end, and nowhere else.
pub proof fn law_lines_are_64_long(b64: Seq<char>, k: int)
    requires
        !b64.contains('\n'),
        0 <= k < wrapped(b64).len(),
    ensures
        wrapped(b64)[k] == '\n' <==> k % 65 == 64 || k == wrapped(b64).len() - 1,
    decreases b64.len(),
{
    let w = wrapped(b64);
    if b64.len() <= 64 {
        if k < b64.len() {
            assert(b64.contains(b64[k]));
        }
    } else {
        let rest = b64.skip(64);
        assert(!rest.contains('\n')) by {
            if rest.contains('\n') {
                let i = choose|i: int| 0 <= i < rest.len() && rest[i] == '\n';
                assert(b64[i + 64] == '\n');
            }
        }
        if k < 64 {
            assert(w[k] == b64[k]);
            assert(b64.contains(b64[k]));
            lemma_not_empty(rest);
        } else if k > 64 {
            assert(w[k] == wrapped(rest)[k - 65]);
            law_lines_are_64_long(rest, k - 65);
            assert((k - 65) % 65 == k % 65);
        }
    }
}

proof fn lemma_not_empty(s: Seq<char>)
    requires
        s.len() > 0,
    ensures
        wrapped(s).len() > s.len(),
    decreases s.len(),
{
    if s.len() > 64 {
        lemma_not_empty(s.skip(64));
    }
}

/// A PEM block is the text between its two marking lines.
pub proof fn law_pem_blocks_are_marked(b64: Seq<char>)
    ensures
        text::has_prefix(pem_spec(b64), "-----BEGIN CERTIFICATE-----\n"@),
        text::has_suffix(pem_spec(b64), "-----END CERTIFICATE-----\n"@),
        pem_spec(b64).subrange(
            "-----BEGIN CERTIFICATE-----\n"@.len() as int,
            pem_spec(b64).len() - "-----END CERTIFICATE-----\n"@.len(),
        ) == wrapped(b64),
{
    let head = "-----BEGIN CERTIFICATE-----\n"@;
    let tail = "-----END CERTIFICATE-----\n"@;
    let s = pem_spec(b64);
    assert(s.take(head.len() as int) =~= head);
    assert(s.skip(s.len() - tail.len()) =~= tail);
    assert(s.subrange(head.len() as int, s.len() - tail.len()) =~= wrapped(b64));
}

/// A failed request is told by the service's code and message where it gave
/// a code, else by the status that it answered with, else by the messages of
/// the error and its causes, outermost first.
pub proof fn law_reasons_are_the_services_or_the_chain(f: SdkFailure)
    ensures
        f.code is Some && f.message is Some ==> reason_spec(f) == f.code->0@ + ": "@
            + f.message->0@,
        f.code is Some && f.message is None ==> reason_spec(f) == f.code->0@ + ": "@,
        f.code is None && f.service && f.status is Some ==> reason_spec(f) == "HTTP "@
            + text::decimal_text(f.status->0 as nat),
        f.code is None && !(f.service && f.status is Some) ==> {
            let chain = text::views(f.chain@);
            &&& chain.len() == 0 ==> reason_spec(f).len() == 0
            &&& chain.len() == 1 ==> reason_spec(f) == chain[0]
            &&& chain.len() >= 2 ==> reason_spec(f) == chained(chain.drop_last()) + ": "@
                + chain.last()
        },
{
    if f.code is Some && f.message is None {
        assert(reason_spec(f) =~= f.code->0@ + ": "@);
    }
}

} // verus!
