//! Identity of virtual documents.
//!
//! A virtual document stands for one injection region of a host document. Its
//! locator is a string of the form
//!
//! ```text
//! kakehashi-virtual://<language>/<region id>/<host document locator>
//! ```
//!
//! The scheme is reserved for virtual documents, so no locator of a real file
//! is ever equal to one of these.

use vstd::prelude::*;

verus! {

/// What every locator of a virtual document starts with.
pub const VIRTUAL_SCHEME_PREFIX: &'static str = "kakehashi-virtual://";

/// The characters of [`VIRTUAL_SCHEME_PREFIX`].
pub open spec fn scheme_prefix() -> Seq<char> {
    "kakehashi-virtual://"@
}

/// The characters of a `&str`, in order.
fn to_chars(s: &str) -> (chars: Vec<char>)
    ensures
        chars@ == s@,
{
    let mut chars: Vec<char> = Vec::new();
    for c in it: s.chars()
        invariant
            chars@ == it.seq().take(it.index()),
            it.seq() == s@,
    {
        chars.push(c);
    }
    chars
}

/// A character of a language tag or a region identifier: an ASCII letter or
/// digit, or one of `-`, `.`, `_`, `~`.
pub open spec fn tag_char(c: char) -> bool {
    ||| 'a' <= c <= 'z'
    ||| 'A' <= c <= 'Z'
    ||| '0' <= c <= '9'
    ||| c == '-'
    ||| c == '.'
    ||| c == '_'
    ||| c == '~'
}

/// A character that may stand in a document locator: a tag character, a
/// delimiter of the locator syntax, or `%`.
pub open spec fn uri_char(c: char) -> bool {
    ||| tag_char(c)
    ||| c == ':'
    ||| c == '/'
    ||| c == '?'
    ||| c == '#'
    ||| c == '['
    ||| c == ']'
    ||| c == '@'
    ||| c == '!'
    ||| c == '$'
    ||| c == '&'
    ||| c == '\''
    ||| c == '('
    ||| c == ')'
    ||| c == '*'
    ||| c == '+'
    ||| c == ','
    ||| c == ';'
    ||| c == '='
    ||| c == '%'
}

/// A language tag or a region identifier: one or more tag characters.
pub open spec fn is_tag(s: Seq<char>) -> bool {
    s.len() > 0 && forall|i: int| 0 <= i < s.len() ==> tag_char(#[trigger] s[i])
}

/// The locator of a host document: one or more locator characters.
pub open spec fn is_host_locator(s: Seq<char>) -> bool {
    s.len() > 0 && forall|i: int| 0 <= i < s.len() ==> uri_char(#[trigger] s[i])
}

fn is_tag_char(c: char) -> (yes: bool)
    ensures
        yes == tag_char(c),
{
    ('a' <= c && c <= 'z') || ('A' <= c && c <= 'Z') || ('0' <= c && c <= '9') || c == '-'
        || c == '.' || c == '_' || c == '~'
}

fn is_uri_char(c: char) -> (yes: bool)
    ensures
        yes == uri_char(c),
{
    is_tag_char(c) || c == ':' || c == '/' || c == '?' || c == '#' || c == '[' || c == ']'
        || c == '@' || c == '!' || c == '$' || c == '&' || c == '\'' || c == '(' || c == ')'
        || c == '*' || c == '+' || c == ',' || c == ';' || c == '=' || c == '%'
}

/// What a [`VirtualDocumentUri`] stands for: the host document, the language
/// of the region and the identifier of the region.
pub struct VirtualDocumentUriView {
    pub host_uri: Seq<char>,
    pub language: Seq<char>,
    pub region_id: Seq<char>,
}

impl VirtualDocumentUriView {
    /// The triple can be read back from its locator: language and region
    /// identifier are tags, and the host locator is made of locator
    /// characters.
    pub open spec fn is_valid(self) -> bool {
        &&& is_host_locator(self.host_uri)
        &&& is_tag(self.language)
        &&& is_tag(self.region_id)
    }

    /// The locator of the virtual document.
    pub open spec fn locator(self) -> Seq<char> {
        scheme_prefix() + self.language + seq!['/'] + self.region_id + seq!['/'] + self.host_uri
    }
}

/// The valid triple whose locator is `locator`, if there is one.
pub open spec fn spec_parse(locator: Seq<char>) -> Option<VirtualDocumentUriView> {
    if exists|v: VirtualDocumentUriView| v.is_valid() && v.locator() == locator {
        Some(choose|v: VirtualDocumentUriView| v.is_valid() && v.locator() == locator)
    } else {
        None
    }
}

/// Where the parts of a locator lie in it.
proof fn lemma_locator_shape(v: VirtualDocumentUriView)
    ensures
        ({
            let l = v.locator();
            let a = scheme_prefix().len() as int;
            let b = a + v.language.len();
            let c = b + 1 + v.region_id.len();
            &&& l.len() == c + 1 + v.host_uri.len()
            &&& l.subrange(0, a) == scheme_prefix()
            &&& l.subrange(a, b) == v.language
            &&& l[b] == '/'
            &&& l.subrange(b + 1, c) == v.region_id
            &&& l[c] == '/'
            &&& l.subrange(c + 1, l.len() as int) == v.host_uri
        }),
{
    let l = v.locator();
    let a = scheme_prefix().len() as int;
    let b = a + v.language.len();
    let c = b + 1 + v.region_id.len();
    assert(l.subrange(0, a) =~= scheme_prefix());
    assert(l.subrange(a, b) =~= v.language);
    assert(l.subrange(b + 1, c) =~= v.region_id);
    assert(l.subrange(c + 1, l.len() as int) =~= v.host_uri);
}

/// A run of tag characters that ends at a `/` ends nowhere else.
proof fn lemma_tag_end_unique(l: Seq<char>, from: int, e1: int, e2: int)
    requires
        0 <= from <= e1 < l.len(),
        from <= e2 < l.len(),
        forall|i: int| from <= i < e1 ==> tag_char(#[trigger] l[i]),
        forall|i: int| from <= i < e2 ==> tag_char(#[trigger] l[i]),
        l[e1] == '/',
        l[e2] == '/',
    ensures
        e1 == e2,
{
    if e1 < e2 {
        assert(tag_char(l[e1]));
    }
    if e2 < e1 {
        assert(tag_char(l[e2]));
    }
}

/// Tag characters of a part of a locator, seen from the locator.
proof fn lemma_tag_in_place(l: Seq<char>, from: int, to: int)
    requires
        0 <= from <= to <= l.len(),
        is_tag(l.subrange(from, to)),
    ensures
        from < to,
        forall|i: int| from <= i < to ==> tag_char(#[trigger] l[i]),
{
    let part = l.subrange(from, to);
    assert forall|i: int| from <= i < to implies tag_char(#[trigger] l[i]) by {
        assert(part[i - from] == l[i]);
    }
}

/// Two valid triples with the same locator are the same triple.
pub proof fn law_locator_determines_triple(v: VirtualDocumentUriView, w: VirtualDocumentUriView)
    requires
        v.is_valid(),
        w.is_valid(),
        v.locator() == w.locator(),
    ensures
        v == w,
{
    let l = v.locator();
    let a = scheme_prefix().len() as int;
    lemma_locator_shape(v);
    lemma_locator_shape(w);
    let bv = a + v.language.len();
    let bw = a + w.language.len();
    lemma_tag_in_place(l, a, bv);
    lemma_tag_in_place(l, a, bw);
    lemma_tag_end_unique(l, a, bv, bw);
    let cv = bv + 1 + v.region_id.len();
    let cw = bw + 1 + w.region_id.len();
    lemma_tag_in_place(l, bv + 1, cv);
    lemma_tag_in_place(l, bw + 1, cw);
    lemma_tag_end_unique(l, bv + 1, cv, cw);
}

/// Reading back the locator of a valid triple gives the triple.
pub proof fn law_parse_inverts_build(v: VirtualDocumentUriView)
    requires
        v.is_valid(),
    ensures
        spec_parse(v.locator()) == Some(v),
{
    let w = spec_parse(v.locator())->0;
    law_locator_determines_triple(v, w);
}

/// Two regions of one host document in one language have different locators
/// whenever their identifiers differ.
pub proof fn law_distinct_regions_distinct_locators(
    host_uri: Seq<char>,
    language: Seq<char>,
    region_a: Seq<char>,
    region_b: Seq<char>,
)
    requires
        region_a != region_b,
    ensures
        (VirtualDocumentUriView { host_uri, language, region_id: region_a }).locator() != (
        VirtualDocumentUriView { host_uri, language, region_id: region_b }).locator(),
{
    let va = VirtualDocumentUriView { host_uri, language, region_id: region_a };
    let vb = VirtualDocumentUriView { host_uri, language, region_id: region_b };
    if va.locator() == vb.locator() {
        lemma_locator_shape(va);
        lemma_locator_shape(vb);
        assert(region_a =~= region_b);
    }
}

/// Every locator of a virtual document starts with the reserved scheme, and
/// so does no locator of a file: the two are never confused.
pub proof fn law_locator_is_reserved(v: VirtualDocumentUriView)
    ensures
        scheme_prefix().is_prefix_of(v.locator()),
        !"file:"@.is_prefix_of(v.locator()),
{
    reveal_strlit("kakehashi-virtual://");
    reveal_strlit("file:");
    let l = v.locator();
    lemma_locator_shape(v);
    assert(l[0] == scheme_prefix()[0]);
    if "file:"@.is_prefix_of(l) {
        assert(l[0] == "file:"@[0]);
    }
}

/// The locator of a valid triple is made of locator characters throughout.
pub proof fn law_valid_locator_is_well_formed(v: VirtualDocumentUriView)
    requires
        v.is_valid(),
    ensures
        is_host_locator(v.locator()),
{
    reveal_strlit("kakehashi-virtual://");
    let l = v.locator();
    let p = scheme_prefix();
    lemma_locator_shape(v);
    let a = p.len() as int;
    let b = a + v.language.len();
    let c = b + 1 + v.region_id.len();
    assert forall|i: int| 0 <= i < l.len() implies uri_char(#[trigger] l[i]) by {
        if i < a {
            assert(l[i] == p[i]);
        } else if i < b {
            assert(l[i] == v.language[i - a]);
        } else if i == b {
        } else if i < c {
            assert(l[i] == v.region_id[i - b - 1]);
        } else if i == c {
        } else {
            assert(l[i] == v.host_uri[i - c - 1]);
        }
    }
}

/// The locator of the virtual document that stands for one injection region.
#[derive(Debug, PartialEq, Eq, Hash)]
pub struct VirtualDocumentUri {
    host_uri: String,
    language: String,
    region_id: String,
}

impl View for VirtualDocumentUri {
    type V = VirtualDocumentUriView;

    closed spec fn view(&self) -> VirtualDocumentUriView {
        VirtualDocumentUriView {
            host_uri: self.host_uri@,
            language: self.language@,
            region_id: self.region_id@,
        }
    }
}

impl Clone for VirtualDocumentUri {
    fn clone(&self) -> (copy: Self)
        ensures
            copy@ == self@,
    {
        VirtualDocumentUri {
            host_uri: self.host_uri.clone(),
            language: self.language.clone(),
            region_id: self.region_id.clone(),
        }
    }
}

/// The end of the run of tag characters that starts at `from`.
fn tag_run_end(chars: &Vec<char>, from: usize) -> (end: usize)
    requires
        from <= chars.len(),
    ensures
        from <= end <= chars.len(),
        forall|i: int| from <= i < end ==> tag_char(#[trigger] chars[i]),
        end < chars.len() ==> !tag_char(chars[end as int]),
{
    let mut end: usize = from;
    while end < chars.len() && is_tag_char(chars[end])
        invariant
            from <= end <= chars.len(),
            forall|i: int| from <= i < end ==> tag_char(#[trigger] chars[i]),
        decreases chars.len() - end,
    {
        end += 1;
    }
    end
}

/// Whether every character from `from` on is a locator character.
fn all_uri_chars(chars: &Vec<char>, from: usize) -> (all: bool)
    requires
        from <= chars.len(),
    ensures
        all == forall|i: int| from <= i < chars.len() ==> uri_char(#[trigger] chars[i]),
{
    let mut i: usize = from;
    while i < chars.len()
        invariant
            from <= i <= chars.len(),
            forall|j: int| from <= j < i ==> uri_char(#[trigger] chars[j]),
        decreases chars.len() - i,
    {
        if !is_uri_char(chars[i]) {
            return false;
        }
        i += 1;
    }
    true
}

/// Whether `chars` starts with `prefix`.
fn starts_with(chars: &Vec<char>, prefix: &Vec<char>) -> (yes: bool)
    ensures
        yes == prefix@.is_prefix_of(chars@),
{
    if chars.len() < prefix.len() {
        return false;
    }
    let mut i: usize = 0;
    while i < prefix.len()
        invariant
            i <= prefix.len() <= chars.len(),
            forall|j: int| 0 <= j < i ==> chars[j] == prefix[j],
        decreases prefix.len() - i,
    {
        if chars[i] != prefix[i] {
            return false;
        }
        i += 1;
    }
    assert(chars@.subrange(0, prefix.len() as int) =~= prefix@);
    true
}

/// Whether `s` is a tag.
fn is_tag_str(s: &str) -> (yes: bool)
    ensures
        yes == is_tag(s@),
{
    let chars = to_chars(s);
    chars.len() > 0 && tag_run_end(&chars, 0) == chars.len()
}

impl VirtualDocumentUri {
    /// The virtual document of the region `region_id`, written in `language`,
    /// of the host document `host_uri`.
    pub fn new(host_uri: &str, language: &str, region_id: &str) -> (uri: Self)
        ensures
            uri@.host_uri == host_uri@,
            uri@.language == language@,
            uri@.region_id == region_id@,
    {
        VirtualDocumentUri {
            host_uri: String::from_str(host_uri),
            language: String::from_str(language),
            region_id: String::from_str(region_id),
        }
    }

    /// The locator of the host document.
    pub fn host_uri(&self) -> (host_uri: &str)
        ensures
            host_uri@ == self@.host_uri,
    {
        self.host_uri.as_str()
    }

    /// The language of the region.
    pub fn language(&self) -> (language: &str)
        ensures
            language@ == self@.language,
    {
        self.language.as_str()
    }

    /// The identifier of the region.
    pub fn region_id(&self) -> (region_id: &str)
        ensures
            region_id@ == self@.region_id,
    {
        self.region_id.as_str()
    }

    /// Whether the triple can be read back from its locator.
    pub fn is_valid(&self) -> (valid: bool)
        ensures
            valid == self@.is_valid(),
    {
        let host = to_chars(self.host_uri.as_str());
        host.len() > 0 && all_uri_chars(&host, 0) && is_tag_str(self.language.as_str())
            && is_tag_str(self.region_id.as_str())
    }

    /// The locator of the virtual document, as it is sent downstream.
    pub fn to_uri_string(&self) -> (locator: String)
        ensures
            locator@ == self@.locator(),
    {
        let mut locator = String::from_str(VIRTUAL_SCHEME_PREFIX);
        locator.append(self.language.as_str());
        locator.append("/");
        locator.append(self.region_id.as_str());
        locator.append("/");
        locator.append(self.host_uri.as_str());
        proof {
            reveal_strlit("/");
            assert("/"@ =~= seq!['/']);
        }
        locator
    }

    /// Reads a locator back into the triple it was built from. Returns `None`
    /// for every string that is not the locator of a valid triple.
    pub fn parse(locator: &str) -> (parsed: Option<Self>)
        ensures
            match parsed {
                Some(uri) => spec_parse(locator@) == Some(uri@),
                None => spec_parse(locator@) is None,
            },
    {
        let chars = to_chars(locator);
        let prefix = to_chars(VIRTUAL_SCHEME_PREFIX);
        let n = chars.len();
        let a = prefix.len();
        if !starts_with(&chars, &prefix) {
            proof {
                assert forall|v: VirtualDocumentUriView| v.is_valid() implies v.locator()
                    != locator@ by {
                    lemma_locator_shape(v);
                }
            }
            return None;
        }
        let b = tag_run_end(&chars, a);
        if b == a || b >= n || chars[b] != '/' {
            proof {
                assert forall|v: VirtualDocumentUriView| v.is_valid() implies v.locator()
                    != locator@ by {
                    lemma_locator_shape(v);
                    if v.locator() == locator@ {
                        let bv = a + v.language.len();
                        lemma_tag_in_place(locator@, a as int, bv);
                        if b < bv {
                            assert(tag_char(chars[b as int]));
                        }
                    }
                }
            }
            return None;
        }
        let c = tag_run_end(&chars, b + 1);
        if c == b + 1 || c >= n || chars[c] != '/' {
            proof {
                assert forall|v: VirtualDocumentUriView| v.is_valid() implies v.locator()
                    != locator@ by {
                    lemma_locator_shape(v);
                    if v.locator() == locator@ {
                        let bv = a + v.language.len();
                        lemma_tag_in_place(locator@, a as int, bv);
                        lemma_tag_end_unique(locator@, a as int, b as int, bv);
                        let cv = bv + 1 + v.region_id.len();
                        lemma_tag_in_place(locator@, bv + 1, cv);
                        if c < cv {
                            assert(tag_char(chars[c as int]));
                        }
                    }
                }
            }
            return None;
        }
        if c + 1 >= n || !all_uri_chars(&chars, c + 1) {
            proof {
                assert forall|v: VirtualDocumentUriView| v.is_valid() implies v.locator()
                    != locator@ by {
                    lemma_locator_shape(v);
                    if v.locator() == locator@ {
                        let bv = a + v.language.len();
                        lemma_tag_in_place(locator@, a as int, bv);
                        lemma_tag_end_unique(locator@, a as int, b as int, bv);
                        let cv = bv + 1 + v.region_id.len();
                        lemma_tag_in_place(locator@, bv + 1, cv);
                        lemma_tag_end_unique(locator@, bv + 1, c as int, cv);
                        assert forall|i: int| c + 1 <= i < n implies uri_char(
                            #[trigger] chars[i],
                        ) by {
                            assert(v.host_uri[i - c - 1] == chars[i]);
                        }
                    }
                }
            }
            return None;
        }
        let uri = VirtualDocumentUri {
            host_uri: String::from_str(locator.substring_char(c + 1, n)),
            language: String::from_str(locator.substring_char(a, b)),
            region_id: String::from_str(locator.substring_char(b + 1, c)),
        };
        proof {
            let v = uri@;
            assert(v.locator() =~= locator@);
            assert forall|i: int| 0 <= i < v.language.len() implies tag_char(
                #[trigger] v.language[i],
            ) by {
                assert(v.language[i] == chars[a + i]);
            }
            assert forall|i: int| 0 <= i < v.region_id.len() implies tag_char(
                #[trigger] v.region_id[i],
            ) by {
                assert(v.region_id[i] == chars[b + 1 + i]);
            }
            assert forall|i: int| 0 <= i < v.host_uri.len() implies uri_char(
                #[trigger] v.host_uri[i],
            ) by {
                assert(v.host_uri[i] == chars[c + 1 + i]);
            }
            law_parse_inverts_build(v);
        }
        Some(uri)
    }
}

/// The version that a virtual document is opened with.
pub const INITIAL_DOCUMENT_VERSION: i32 = 1;

/// Why a notification did not reach a downstream server.
#[derive(Clone, Copy, Debug, PartialEq, Eq, Structural)]
pub enum SyncError {
    /// The notification could not be sent.
    SendFailed,
}

/// Tells a downstream server that a document is open: its locator, its
/// language, its version and its full text.
#[derive(Debug, PartialEq, Eq)]
pub struct DidOpenNotification {
    pub uri: String,
    pub language_id: String,
    pub version: i32,
    pub text: String,
}

/// A [`DidOpenNotification`] as contracts see it.
pub struct DidOpenNotificationView {
    pub uri: Seq<char>,
    pub language_id: Seq<char>,
    pub version: i32,
    pub text: Seq<char>,
}

impl View for DidOpenNotification {
    type V = DidOpenNotificationView;

    open spec fn view(&self) -> DidOpenNotificationView {
        DidOpenNotificationView {
            uri: self.uri@,
            language_id: self.language_id@,
            version: self.version,
            text: self.text@,
        }
    }
}

/// Tells a downstream server that a document is closed.
#[derive(Debug, PartialEq, Eq)]
pub struct DidCloseNotification {
    pub uri: String,
}

/// The notification that opens the virtual document `uri` with the text
/// `content`.
pub open spec fn did_open_of(
    uri: VirtualDocumentUriView,
    content: Seq<char>,
) -> DidOpenNotificationView {
    DidOpenNotificationView {
        uri: uri.locator(),
        language_id: uri.language,
        version: INITIAL_DOCUMENT_VERSION,
        text: content,
    }
}

impl VirtualDocumentUri {
    /// The notification that opens this virtual document with the text
    /// `content`: the virtual locator stands where a real one would.
    pub fn did_open(&self, content: &str) -> (notification: DidOpenNotification)
        ensures
            notification@ == did_open_of(self@, content@),
    {
        DidOpenNotification {
            uri: self.to_uri_string(),
            language_id: self.language.clone(),
            version: INITIAL_DOCUMENT_VERSION,
            text: String::from_str(content),
        }
    }

    /// The notification that closes this virtual document.
    pub fn did_close(&self) -> (notification: DidCloseNotification)
        ensures
            notification.uri@ == self@.locator(),
    {
        DidCloseNotification { uri: self.to_uri_string() }
    }
}

} // verus!
