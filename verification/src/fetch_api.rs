//! The Fetch API objects: `Headers` and `Response`, with the validation
//! of their initializers, the header-list lookup and the body's text.
use vstd::prelude::*;
use vstd::utf8::{decode_utf8, encode_utf8, valid_utf8};
use crate::fetch::HeaderList;
use crate::text::{
    ascii_lower_seq, chars_of, concat_str, eq_ignore_ascii_case, str_eq_ignore_ascii_case,
    string_from_chars, to_ascii_lowercase,
};
use crate::url::{url_strip_fragment, url_without_fragment_of};

verus! {

/// A token character of a header name.
pub open spec fn is_token_char(c: char) -> bool {
    ||| c == '!' || c == '#' || c == '$' || c == '%' || c == '&' || c == '\''
    ||| c == '*' || c == '+' || c == '-' || c == '.' || c == '^' || c == '_'
    ||| c == '`' || c == '|' || c == '~'
    ||| ('0' <= c && c <= '9')
    ||| ('A' <= c && c <= 'Z')
    ||| ('a' <= c && c <= 'z')
}

/// A header name: a non-empty sequence of token characters.
pub open spec fn is_header_name_spec(name: Seq<char>) -> bool {
    name.len() > 0 && forall|i: int| 0 <= i < name.len() ==> is_token_char(#[trigger] name[i])
}

/// A character of a reason phrase: tab, a visible ASCII character or space,
/// or a character of U+0080 to U+00FF.
pub open spec fn is_reason_char(c: char) -> bool {
    c == '\t' || (' ' <= c && c <= '~') || ('\u{80}' <= c && c <= '\u{ff}')
}

/// Whether every character of the text belongs to a reason phrase.
pub open spec fn is_reason_phrase_spec(text: Seq<char>) -> bool {
    forall|i: int| 0 <= i < text.len() ==> is_reason_char(#[trigger] text[i])
}

/// The null body statuses: 101, 103, 204, 205 and 304.
pub open spec fn is_null_body_status_spec(status: u16) -> bool {
    status == 101 || status == 103 || status == 204 || status == 205 || status == 304
}

/// An ok status: 200 to 299.
pub open spec fn is_ok_status(status: u16) -> bool {
    200 <= status && status <= 299
}

fn is_token_char_exec(c: char) -> (r: bool)
    ensures
        r == is_token_char(c),
{
    c == '!' || c == '#' || c == '$' || c == '%' || c == '&' || c == '\'' || c == '*' || c == '+'
        || c == '-' || c == '.' || c == '^' || c == '_' || c == '`' || c == '|' || c == '~' || (
    '0' <= c && c <= '9') || ('A' <= c && c <= 'Z') || ('a' <= c && c <= 'z')
}

/// Whether the string is a header name.
pub fn is_header_name(name: &str) -> (r: bool)
    ensures
        r == is_header_name_spec(name@),
{
    let chars = chars_of(name);
    if chars.len() == 0 {
        return false;
    }
    let mut i: usize = 0;
    while i < chars.len()
        invariant
            chars@ == name@,
            i <= chars@.len(),
            forall|k: int| 0 <= k < i ==> is_token_char(#[trigger] chars@[k]),
        decreases chars@.len() - i,
    {
        if !is_token_char_exec(chars[i]) {
            return false;
        }
        i = i + 1;
    }
    true
}

/// Whether the status is a null body status.
pub fn is_null_body_status(status: u16) -> (r: bool)
    ensures
        r == is_null_body_status_spec(status),
{
    status == 101 || status == 103 || status == 204 || status == 205 || status == 304
}

/// Whether the text matches the reason-phrase production.
pub fn is_reason_phrase(value: &str) -> (r: bool)
    ensures
        r == is_reason_phrase_spec(value@),
{
    let chars = chars_of(value);
    let mut i: usize = 0;
    while i < chars.len()
        invariant
            chars@ == value@,
            i <= chars@.len(),
            forall|k: int| 0 <= k < i ==> is_reason_char(#[trigger] chars@[k]),
        decreases chars@.len() - i,
    {
        let c = chars[i];
        if !(c == '\t' || (' ' <= c && c <= '~') || ('\u{80}' <= c && c <= '\u{ff}')) {
            return false;
        }
        i = i + 1;
    }
    true
}

/// An error the Fetch API throws.
#[derive(Debug)]
pub enum FetchError {
    /// A `RangeError`: the status of a response initializer is not in the
    /// range 200 to 599.
    StatusOutOfRange,
    /// A `TypeError`: the status text of a response initializer does not
    /// match the reason-phrase production.
    InvalidStatusText,
    /// A `TypeError`: a header name that is not a header name.
    InvalidHeaderName { name: String },
    /// A `TypeError`: a body is given together with a null body status.
    BodyNotAllowed,
    /// A `TypeError`: the body has already been consumed.
    BodyUnusable,
}

impl FetchError {
    /// Whether the error is a `RangeError` (otherwise it is a `TypeError`).
    pub fn is_range_error(&self) -> (r: bool)
        ensures
            r == (*self is StatusOutOfRange),
    {
        match self {
            FetchError::StatusOutOfRange => true,
            _ => false,
        }
    }

    /// The message the error is thrown with.
    pub fn message(&self) -> (m: String)
        ensures
            *self is StatusOutOfRange ==> m@ == "Response status must be in the range 200 to 599"@,
            *self is InvalidStatusText ==> m@ == "Response statusText must match reason-phrase"@,
            *self is InvalidHeaderName ==> m@ == "invalid header name `"@ + self->name@ + "`"@,
            *self is BodyNotAllowed ==> m@ == "Response body is not allowed for this status"@,
            *self is BodyUnusable ==> m@ == "body has already been consumed"@,
    {
        match self {
            FetchError::StatusOutOfRange => String::from_str(
                "Response status must be in the range 200 to 599",
            ),
            FetchError::InvalidStatusText => String::from_str(
                "Response statusText must match reason-phrase",
            ),
            FetchError::InvalidHeaderName { name } => {
                let head = concat_str("invalid header name `", name.as_str());
                concat_str(head.as_str(), "`")
            },
            FetchError::BodyNotAllowed => String::from_str(
                "Response body is not allowed for this status",
            ),
            FetchError::BodyUnusable => String::from_str("body has already been consumed"),
        }
    }
}

/// The values of the headers whose name is an ASCII case-insensitive match
/// for `name`, in order.
pub open spec fn header_values(list: Seq<(Seq<char>, Seq<char>)>, name: Seq<char>) -> Seq<Seq<char>>
    decreases list.len(),
{
    if list.len() == 0 {
        Seq::empty()
    } else {
        let rest = header_values(list.drop_last(), name);
        if eq_ignore_ascii_case(list.last().0, name) {
            rest.push(list.last().1)
        } else {
            rest
        }
    }
}

/// Values joined with ", " between each two.
pub open spec fn join_comma_space(values: Seq<Seq<char>>) -> Seq<char>
    decreases values.len(),
{
    if values.len() == 0 {
        Seq::empty()
    } else if values.len() == 1 {
        values[0]
    } else {
        join_comma_space(values.drop_last()) + ", "@ + values.last()
    }
}

/// Getting a name from a header list: nothing where no header has that
/// name, otherwise the values of those headers joined with ", ".
pub open spec fn header_list_get(list: Seq<(Seq<char>, Seq<char>)>, name: Seq<char>) -> Option<
    Seq<char>,
> {
    let values = header_values(list, name);
    if values.len() == 0 {
        None
    } else {
        Some(join_comma_space(values))
    }
}

/// A `Headers` object: a header list.
pub struct Headers {
    pub header_list: HeaderList,
}

impl Headers {
    /// A `Headers` object over the header list.
    pub fn new(header_list: HeaderList) -> (h: Self)
        ensures
            h.header_list@ == header_list@,
    {
        Headers { header_list }
    }

    /// A copy of the header list.
    pub fn header_list(&self) -> (l: HeaderList)
        ensures
            l@ == self.header_list@,
    {
        self.header_list.copy()
    }

    /// Gets a name from the header list.
    pub fn get(&self, name: &str) -> (r: Option<String>)
        ensures
            match r {
                Some(v) => header_list_get(self.header_list@, name@) == Some(v@),
                None => header_list_get(self.header_list@, name@) is None,
            },
    {
        let ghost list = self.header_list@;
        let mut out = String::new();
        let mut found = false;
        let mut i: usize = 0;
        proof {
            reveal_strlit(", ");
            assert(list.take(0) =~= Seq::<(Seq<char>, Seq<char>)>::empty());
        }
        while i < self.header_list.headers.len()
            invariant
                list == self.header_list@,
                i <= list.len(),
                found == (header_values(list.take(i as int), name@).len() > 0),
                out@ == join_comma_space(header_values(list.take(i as int), name@)),
            decreases list.len() - i,
        {
            let ghost before = header_values(list.take(i as int), name@);
            assert(list.take(i + 1).drop_last() =~= list.take(i as int));
            assert(list[i as int] == (
            self.header_list.headers@[i as int].0@,
            self.header_list.headers@[i as int].1@,
            ));
            let header_name = self.header_list.headers[i].0.as_str();
            if str_eq_ignore_ascii_case(header_name, name) {
                let value = self.header_list.headers[i].1.as_str();
                if found {
                    let with_sep = concat_str(out.as_str(), ", ");
                    out = concat_str(with_sep.as_str(), value);
                } else {
                    out = String::from_str(value);
                }
                found = true;
                assert(header_values(list.take(i + 1), name@) == before.push(value@));
                assert(before.push(value@).drop_last() =~= before);
            }
            i = i + 1;
        }
        assert(list.take(list.len() as int) =~= list);
        if found {
            Some(out)
        } else {
            None
        }
    }
}

/// The `get(name)` method of `Headers`: a `TypeError` where `name` is not a
/// header name, otherwise getting `name` from the header list.
pub fn headers_get_method(headers: &Headers, name: &str) -> (r: Result<Option<String>, FetchError>)
    ensures
        !is_header_name_spec(name@) ==> (r matches Err(FetchError::InvalidHeaderName { name: n })
            && n@ == name@),
        is_header_name_spec(name@) ==> (r matches Ok(v) && match v {
            Some(s) => header_list_get(headers.header_list@, name@) == Some(s@),
            None => header_list_get(headers.header_list@, name@) is None,
        }),
{
    if !is_header_name(name) {
        return Err(FetchError::InvalidHeaderName { name: String::from_str(name) });
    }
    Ok(headers.get(name))
}

/// The header list that a record of header names and values fills, in
/// order, with each name lowercased.
pub open spec fn filled_header_list(entries: Seq<(Seq<char>, Seq<char>)>) -> Seq<
    (Seq<char>, Seq<char>),
> {
    entries.map_values(|e: (Seq<char>, Seq<char>)| (ascii_lower_seq(e.0), e.1))
}

/// Whether every name among the first `n` entries is a header name.
pub open spec fn names_valid_upto(entries: Seq<(Seq<char>, Seq<char>)>, n: int) -> bool {
    forall|k: int| 0 <= k < n ==> is_header_name_spec(#[trigger] entries[k].0)
}

/// Fills a header list from a record of header names and values, in
/// order: a `TypeError` naming the first name that is not a header name,
/// otherwise the list of the lowercased names with their values.
pub fn header_list_from_value(entries: &[(String, String)]) -> (r: Result<HeaderList, FetchError>)
    ensures
        match r {
            Ok(list) => names_valid_upto(entries@.map_values(|e: (String, String)| (e.0@, e.1@)), entries@.len() as int)
                && list@ == filled_header_list(entries@.map_values(|e: (String, String)| (e.0@, e.1@))),
            Err(FetchError::InvalidHeaderName { name }) => exists|i: int|
                0 <= i < entries@.len()
                && names_valid_upto(entries@.map_values(|e: (String, String)| (e.0@, e.1@)), i)
                && !is_header_name_spec(#[trigger] entries@[i].0@)
                && name@ == entries@[i].0@,
            Err(_) => false,
        },
{
    let ghost view = entries@.map_values(|e: (String, String)| (e.0@, e.1@));
    let mut headers: Vec<(String, String)> = Vec::new();
    let mut i: usize = 0;
    while i < entries.len()
        invariant
            view == entries@.map_values(|e: (String, String)| (e.0@, e.1@)),
            i <= entries@.len(),
            headers@.len() == i,
            names_valid_upto(view, i as int),
            forall|k: int|
                0 <= k < i ==> (#[trigger] headers@[k]).0@ == ascii_lower_seq(entries@[k].0@)
                    && headers@[k].1@ == entries@[k].1@,
        decreases entries@.len() - i,
    {
        let name = entries[i].0.as_str();
        if !is_header_name(name) {
            assert(view[i as int].0 == entries@[i as int].0@);
            return Err(FetchError::InvalidHeaderName { name: String::from_str(name) });
        }
        let name_chars = chars_of(name);
        let lower = to_ascii_lowercase(name_chars.as_slice());
        let lowered = string_from_chars(lower.as_slice());
        let value = entries[i].1.clone();
        headers.push((lowered, value));
        assert(view[i as int].0 == entries@[i as int].0@);
        i = i + 1;
    }
    let list = HeaderList { headers };
    assert(list@ =~= filled_header_list(view));
    Ok(list)
}

/// The members of a `ResponseInit` dictionary that were given.
pub struct ResponseInitDict {
    pub status: Option<u32>,
    pub status_text: Option<String>,
    pub headers: Option<Vec<(String, String)>>,
}

/// A `ResponseInit` once validated: status, status message and header list.
pub struct ResponseInit {
    pub status: u16,
    pub status_text: String,
    pub header_list: HeaderList,
}

/// Whether a given status is rejected: it is outside 200 to 599.
pub open spec fn status_rejected(init: ResponseInitDict) -> bool {
    match init.status {
        Some(s) => !(200 <= s && s <= 599),
        None => false,
    }
}

/// Whether a given status text is rejected: it is neither empty nor a
/// reason phrase.
pub open spec fn status_text_rejected(init: ResponseInitDict) -> bool {
    match init.status_text {
        Some(t) => t@.len() != 0 && !is_reason_phrase_spec(t@),
        None => false,
    }
}

/// The headers of an initializer as name/value character sequences.
pub open spec fn init_headers_view(headers: Vec<(String, String)>) -> Seq<(Seq<char>, Seq<char>)> {
    headers@.map_values(|e: (String, String)| (e.0@, e.1@))
}

/// Whether the given headers are rejected: some name is not a header name.
pub open spec fn headers_rejected(init: ResponseInitDict) -> bool {
    match init.headers {
        Some(h) => !names_valid_upto(init_headers_view(h), h@.len() as int),
        None => false,
    }
}

/// Validates a `ResponseInit`, in the order of the standard: the status
/// (a `RangeError` outside 200 to 599; 200 where none is given), the status
/// text (a `TypeError` where it is neither empty nor a reason phrase; empty
/// where none is given), then the headers (a `TypeError` for the first name
/// that is not a header name; an empty list where none are given).
pub fn response_init(init: ResponseInitDict) -> (r: Result<ResponseInit, FetchError>)
    ensures
        status_rejected(init) ==> r matches Err(FetchError::StatusOutOfRange),
        !status_rejected(init) && status_text_rejected(init) ==> r matches Err(
            FetchError::InvalidStatusText,
        ),
        !status_rejected(init) && !status_text_rejected(init) && headers_rejected(init) ==> r matches Err(
            FetchError::InvalidHeaderName { .. },
        ),
        !status_rejected(init) && !status_text_rejected(init) && !headers_rejected(init) ==> (r matches Ok(
            v,
        ) && v.status == match init.status {
            Some(s) => s as u16,
            None => 200u16,
        } && v.status_text@ == match init.status_text {
            Some(t) => t@,
            None => Seq::<char>::empty(),
        } && v.header_list@ == match init.headers {
            Some(h) => filled_header_list(init_headers_view(h)),
            None => Seq::<(Seq<char>, Seq<char>)>::empty(),
        }),
{
    let mut status: u16 = 200;
    if let Some(s) = init.status {
        if !(200 <= s && s <= 599) {
            return Err(FetchError::StatusOutOfRange);
        }
        status = s as u16;
    }
    let mut status_text = String::new();
    if let Some(t) = init.status_text {
        if t.as_str().unicode_len() != 0 && !is_reason_phrase(t.as_str()) {
            return Err(FetchError::InvalidStatusText);
        }
        status_text = t;
    }
    let mut header_list = HeaderList::new();
    if let Some(h) = init.headers {
        match header_list_from_value(h.as_slice()) {
            Ok(list) => {
                header_list = list;
            },
            Err(e) => {
                proof {
                    let hv = init_headers_view(h);
                    let w = choose|i: int|
                        0 <= i < h@.len() && names_valid_upto(hv, i)
                            && !is_header_name_spec(#[trigger] h@[i].0@);
                    assert(hv[w].0 == h@[w].0@);
                }
                return Err(e);
            },
        }
    }
    Ok(ResponseInit { status, status_text, header_list })
}

/// What `String::from_utf8_lossy` decodes from bytes: each maximal invalid
/// sequence replaced by U+FFFD.
pub uninterp spec fn utf8_decoded_lossy(bytes: Seq<u8>) -> Seq<char>;

/// Calls `String::from_utf8_lossy`; on valid UTF-8 it decodes exactly.
#[verifier::external_body]
fn utf8_decode_lossy(bytes: &[u8]) -> (s: String)
    ensures
        s@ == utf8_decoded_lossy(bytes@),
        valid_utf8(bytes@) ==> s@ == decode_utf8(bytes@),
{
    String::from_utf8_lossy(bytes).into_owned()
}

/// The text without one leading byte order mark.
pub open spec fn strip_bom(text: Seq<char>) -> Seq<char> {
    if text.len() > 0 && text[0] == '\u{feff}' {
        text.drop_first()
    } else {
        text
    }
}

/// UTF-8 decode of a body, without a leading byte order mark: exact
/// decoding where the bytes are valid UTF-8, lossy decoding otherwise.
pub open spec fn utf8_decode_body(bytes: Seq<u8>) -> Seq<char> {
    strip_bom(
        if valid_utf8(bytes) {
            decode_utf8(bytes)
        } else {
            utf8_decoded_lossy(bytes)
        },
    )
}

/// A response once its body has been read as text: where the body is
/// present and usable, its stream is now disturbed and locked; otherwise
/// nothing changes.
pub open spec fn after_consume(r: Response) -> Response {
    match r.body {
        Some(b) => if b.disturbed || b.locked {
            r
        } else {
            Response {
                body: Some(ResponseBody { bytes: b.bytes, disturbed: true, locked: true }),
                ..r
            }
        },
        None => r,
    }
}

/// The body of a response: its bytes, and whether its stream is disturbed
/// (read from) and locked (to a reader).
pub struct ResponseBody {
    pub bytes: Vec<u8>,
    pub disturbed: bool,
    pub locked: bool,
}

impl ResponseBody {
    /// A body over the bytes, with a fresh stream.
    pub fn from_bytes(bytes: Vec<u8>) -> (b: Self)
        ensures
            b.bytes@ == bytes@,
            !b.disturbed,
            !b.locked,
    {
        ResponseBody { bytes, disturbed: false, locked: false }
    }

    /// Whether the body is unusable: its stream is disturbed or locked.
    pub fn unusable(&self) -> (r: bool)
        ensures
            r == (self.disturbed || self.locked),
    {
        self.disturbed || self.locked
    }
}

/// A response as the network process hands it to content.
pub struct FetchResponse {
    pub final_url: String,
    pub url_list: Vec<String>,
    pub status: u16,
    pub status_text: String,
    pub header_list: HeaderList,
    pub body: Vec<u8>,
}

/// The views of a list of strings.
pub open spec fn strings_view(v: Seq<String>) -> Seq<Seq<char>> {
    v.map_values(|s: String| s@)
}

/// A response's URL serialized without its fragment: empty where the URL
/// list is empty, otherwise its last URL with the fragment dropped (as it
/// stands where it does not parse).
pub open spec fn response_url_spec(url_list: Seq<Seq<char>>) -> Seq<char> {
    if url_list.len() == 0 {
        Seq::empty()
    } else {
        match url_without_fragment_of(url_list.last()) {
            Some(u) => u,
            None => url_list.last(),
        }
    }
}

/// Serializes a URL without its fragment; a string that does not parse as
/// a URL is returned as it is.
pub fn serialized_url_without_fragment(url: &str) -> (s: String)
    ensures
        s@ == match url_without_fragment_of(url@) {
            Some(u) => u,
            None => url@,
        },
{
    match url_strip_fragment(url) {
        Some(u) => u,
        None => String::from_str(url),
    }
}

/// A `Response` object.
pub struct Response {
    pub url_list: Vec<String>,
    pub status: u16,
    pub status_text: String,
    pub headers: Headers,
    pub body: Option<ResponseBody>,
}

impl Response {
    /// Creates a response from what the network handed over: its URL list
    /// (the final URL alone where the list is empty), status, status
    /// message and headers, and its bytes as body, or no body for a null
    /// body status.
    pub fn from_content_fetch_response(response: FetchResponse) -> (r: Self)
        ensures
            strings_view(r.url_list@) == if response.url_list@.len() == 0 {
                seq![response.final_url@]
            } else {
                strings_view(response.url_list@)
            },
            r.status == response.status,
            r.status_text@ == response.status_text@,
            r.headers.header_list@ == response.header_list@,
            is_null_body_status_spec(response.status) ==> r.body is None,
            !is_null_body_status_spec(response.status) ==> (r.body matches Some(b) && b.bytes@
                == response.body@ && !b.disturbed && !b.locked),
    {
        let FetchResponse { final_url, url_list, status, status_text, header_list, body } =
            response;
        let url_list = if url_list.len() == 0 {
            let mut v: Vec<String> = Vec::new();
            v.push(final_url);
            proof {
                assert(strings_view(v@) =~= seq![response.final_url@]);
            }
            v
        } else {
            url_list
        };
        let headers = Headers::new(header_list);
        let body = if is_null_body_status(status) {
            None
        } else {
            Some(ResponseBody::from_bytes(body))
        };
        Response { url_list, status, status_text, headers, body }
    }

    /// The `Response(body, init)` constructor: validates `init` (see
    /// [`response_init`]), then refuses a body together with a null body
    /// status; the body is the UTF-8 encoding of the given text, with a
    /// fresh stream; the URL list is empty.
    pub fn create_platform_object(body: Option<String>, init: ResponseInitDict) -> (r: Result<
        Self,
        FetchError,
    >)
        ensures
            status_rejected(init) ==> r matches Err(FetchError::StatusOutOfRange),
            !status_rejected(init) && status_text_rejected(init) ==> r matches Err(
                FetchError::InvalidStatusText,
            ),
            !status_rejected(init) && !status_text_rejected(init) && headers_rejected(init)
                ==> r matches Err(FetchError::InvalidHeaderName { .. }),
            !status_rejected(init) && !status_text_rejected(init) && !headers_rejected(init) ==> {
                let status = match init.status {
                    Some(s) => s as u16,
                    None => 200u16,
                };
                if body is Some && is_null_body_status_spec(status) {
                    r matches Err(FetchError::BodyNotAllowed)
                } else {
                    &&& r matches Ok(resp)
                    &&& resp.url_list@.len() == 0
                    &&& resp.status == status
                    &&& resp.status_text@ == match init.status_text {
                        Some(t) => t@,
                        None => Seq::<char>::empty(),
                    }
                    &&& resp.headers.header_list@ == match init.headers {
                        Some(h) => filled_header_list(init_headers_view(h)),
                        None => Seq::<(Seq<char>, Seq<char>)>::empty(),
                    }
                    &&& match body {
                        None => resp.body is None,
                        Some(text) => resp.body matches Some(b) && b.bytes@ == encode_utf8(text@)
                            && !b.disturbed && !b.locked,
                    }
                }
            },
    {
        let body = match body {
            Some(text) => Some(ResponseBody::from_bytes(text.as_str().as_bytes_vec())),
            None => None,
        };
        let init = match response_init(init) {
            Ok(v) => v,
            Err(e) => {
                return Err(e);
            },
        };
        if body.is_some() && is_null_body_status(init.status) {
            return Err(FetchError::BodyNotAllowed);
        }
        let ResponseInit { status, status_text, header_list } = init;
        Ok(Response {
            url_list: Vec::new(),
            status,
            status_text,
            headers: Headers::new(header_list),
            body,
        })
    }

    /// Whether the status is an ok status (200 to 299).
    pub fn ok(&self) -> (r: bool)
        ensures
            r == is_ok_status(self.status),
    {
        200 <= self.status && self.status <= 299
    }

    /// The URL, serialized without its fragment, or empty where the URL
    /// list is empty.
    pub fn url(&self) -> (s: String)
        ensures
            s@ == response_url_spec(strings_view(self.url_list@)),
    {
        let n = self.url_list.len();
        if n == 0 {
            return String::new();
        }
        serialized_url_without_fragment(self.url_list[n - 1].as_str())
    }

    /// Whether the body is used: there is a body and its stream is disturbed.
    pub fn body_used(&self) -> (r: bool)
        ensures
            r == (self.body matches Some(b) && b.disturbed),
    {
        match &self.body {
            Some(b) => b.disturbed,
            None => false,
        }
    }

    /// Whether the body is unusable: there is a body and its stream is
    /// disturbed or locked.
    pub fn body_unusable(&self) -> (r: bool)
        ensures
            r == (self.body matches Some(b) && (b.disturbed || b.locked)),
    {
        match &self.body {
            Some(b) => b.unusable(),
            None => false,
        }
    }

    /// Consumes the body as text (the `text()` method): a `TypeError` where
    /// the body is unusable; the empty text where there is no body;
    /// otherwise the body's bytes, read to the end (which locks and
    /// disturbs the stream) and UTF-8 decoded.
    pub fn consume_body_as_text(&mut self) -> (r: Result<String, FetchError>)
        ensures
            *final(self) == after_consume(*old(self)),
            old(self).body_unusable_spec() ==> r matches Err(FetchError::BodyUnusable),
            !old(self).body_unusable_spec() ==> match old(self).body {
                None => r matches Ok(t) && t@.len() == 0,
                Some(b) => r matches Ok(t) && t@ == utf8_decode_body(b.bytes@),
            },
    {
        if self.body_unusable() {
            return Err(FetchError::BodyUnusable);
        }
        match &mut self.body {
            None => Ok(String::new()),
            Some(b) => {
                b.locked = true;
                b.disturbed = true;
                let decoded = utf8_decode_lossy(b.bytes.as_slice());
                let mut chars = chars_of(decoded.as_str());
                if chars.len() > 0 && chars[0] == '\u{feff}' {
                    chars.remove(0);
                    let rest = string_from_chars(chars.as_slice());
                    Ok(rest)
                } else {
                    Ok(decoded)
                }
            },
        }
    }

    /// Whether the body is unusable.
    pub open spec fn body_unusable_spec(&self) -> bool {
        self.body matches Some(b) && (b.disturbed || b.locked)
    }
}

/// Getting a header: nothing from an empty list; appending a header whose
/// name matches the one asked for (ignoring ASCII case) adds its value
/// after the values already there, separated by ", "; appending one with
/// another name changes nothing.
pub proof fn law_header_get_appends_values(
    list: Seq<(Seq<char>, Seq<char>)>,
    header_name: Seq<char>,
    value: Seq<char>,
    name: Seq<char>,
)
    ensures
        header_list_get(Seq::empty(), name) is None,
        eq_ignore_ascii_case(header_name, name) ==> header_list_get(list.push((header_name, value)), name) == Some(
            match header_list_get(list, name) {
                None => value,
                Some(old) => old + ", "@ + value,
            },
        ),
        !eq_ignore_ascii_case(header_name, name) ==> header_list_get(list.push((header_name, value)), name)
            == header_list_get(list, name),
{
    let l2 = list.push((header_name, value));
    assert(l2.drop_last() =~= list);
    let rest = header_values(list, name);
    if eq_ignore_ascii_case(header_name, name) {
        assert(rest.push(value).drop_last() =~= rest);
        if rest.len() == 0 {
            assert(rest.push(value).len() == 1);
        }
    }
}

/// Reading text drops one leading byte order mark and nothing else: a
/// text that starts with U+FEFF loses that one character, any other text
/// is kept whole.
pub proof fn law_one_leading_bom_is_dropped(text: Seq<char>)
    ensures
        strip_bom(seq!['\u{feff}'] + text) == text,
        (text.len() == 0 || text[0] != '\u{feff}') ==> strip_bom(text) == text,
{
    assert((seq!['\u{feff}'] + text).drop_first() =~= text);
}

/// A response is ok exactly when its status is in the range 200 to 299:
/// every status from 200 through 299 (204 among them) is ok, and 199 and
/// 300 and everything beyond are not.
pub proof fn law_ok_status_range(status: u16)
    ensures
        is_ok_status(status) <==> (200 <= status && status <= 299),
        status == 200 || status == 204 || status == 299 ==> is_ok_status(status),
        status < 200 || status > 299 ==> !is_ok_status(status),
{
}

/// The null body statuses are exactly 101, 103, 204, 205 and 304: with any
/// other status a response may carry a body.
pub proof fn law_null_body_statuses(status: u16)
    ensures
        is_null_body_status_spec(status) <==> (status == 101 || status == 103 || status == 204 || status == 205
            || status == 304),
        200 <= status && status <= 299 && status != 204 && status != 205 ==> !is_null_body_status_spec(status),
{
}

/// The constructor refuses a status exactly when one is given outside 200
/// to 599; leaving the status out gives 200.
pub proof fn law_status_range_of_constructor(init: ResponseInitDict)
    ensures
        status_rejected(init) <==> (init.status matches Some(s) && (s < 200 || s > 599)),
        init.status is None ==> !status_rejected(init),
{
}

/// Reading the text of a response returns the text the response was
/// constructed with, without a leading byte order mark.
pub proof fn law_text_reads_back_constructed_body(text: Seq<char>)
    ensures
        utf8_decode_body(encode_utf8(text)) == strip_bom(text),
{
    vstd::utf8::encode_utf8_valid_utf8(text);
    vstd::utf8::encode_utf8_decode_utf8(text);
}

/// The body of a response can be read only once: after a read, a response
/// that had a body has its body used and unusable, so a second read is
/// refused.
pub proof fn law_text_consumes_body_once(r: Response)
    requires
        r.body is Some,
    ensures
        after_consume(r).body_unusable_spec(),
        !r.body_unusable_spec() ==> (after_consume(r).body matches Some(b) && b.disturbed),
{
}

/// Getting a header does not depend on the case of the name asked for.
pub proof fn law_header_get_ignores_case(
    list: Seq<(Seq<char>, Seq<char>)>,
    a: Seq<char>,
    b: Seq<char>,
)
    requires
        eq_ignore_ascii_case(a, b),
    ensures
        header_list_get(list, a) == header_list_get(list, b),
{
    lemma_header_values_ignore_case(list, a, b);
}

proof fn lemma_header_values_ignore_case(
    list: Seq<(Seq<char>, Seq<char>)>,
    a: Seq<char>,
    b: Seq<char>,
)
    requires
        eq_ignore_ascii_case(a, b),
    ensures
        header_values(list, a) == header_values(list, b),
    decreases list.len(),
{
    if list.len() > 0 {
        lemma_header_values_ignore_case(list.drop_last(), a, b);
    }
}

} // verus!
