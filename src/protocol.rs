use vstd::prelude::*;
use vstd::string::*;
use vstd::utf8::*;

verus! {

/// Request verbs of the protocol. The wire text of each is its name in upper case.
#[derive(Debug, Clone, Copy, PartialEq, Eq, Structural)]
pub enum SipMethod {
    Invite,
    Ack,
    Bye,
    Cancel,
    Register,
    Options,
    Prack,
    Subscribe,
    Notify,
    Publish,
    Info,
    Refer,
    Message,
    Update,
}

/// The wire text of a method, as ASCII bytes.
pub open spec fn method_name(m: SipMethod) -> Seq<u8> {
    match m {
        SipMethod::Invite => seq![73u8, 78, 86, 73, 84, 69],
        SipMethod::Ack => seq![65u8, 67, 75],
        SipMethod::Bye => seq![66u8, 89, 69],
        SipMethod::Cancel => seq![67u8, 65, 78, 67, 69, 76],
        SipMethod::Register => seq![82u8, 69, 71, 73, 83, 84, 69, 82],
        SipMethod::Options => seq![79u8, 80, 84, 73, 79, 78, 83],
        SipMethod::Prack => seq![80u8, 82, 65, 67, 75],
        SipMethod::Subscribe => seq![83u8, 85, 66, 83, 67, 82, 73, 66, 69],
        SipMethod::Notify => seq![78u8, 79, 84, 73, 70, 89],
        SipMethod::Publish => seq![80u8, 85, 66, 76, 73, 83, 72],
        SipMethod::Info => seq![73u8, 78, 70, 79],
        SipMethod::Refer => seq![82u8, 69, 70, 69, 82],
        SipMethod::Message => seq![77u8, 69, 83, 83, 65, 71, 69],
        SipMethod::Update => seq![85u8, 80, 68, 65, 84, 69],
    }
}

impl SipMethod {
    /// The wire text of this method.
    pub fn name_bytes(&self) -> (r: &'static [u8])
        ensures
            r@ == method_name(*self),
    {
        match self {
            SipMethod::Invite => &[73u8, 78, 86, 73, 84, 69],
            SipMethod::Ack => &[65u8, 67, 75],
            SipMethod::Bye => &[66u8, 89, 69],
            SipMethod::Cancel => &[67u8, 65, 78, 67, 69, 76],
            SipMethod::Register => &[82u8, 69, 71, 73, 83, 84, 69, 82],
            SipMethod::Options => &[79u8, 80, 84, 73, 79, 78, 83],
            SipMethod::Prack => &[80u8, 82, 65, 67, 75],
            SipMethod::Subscribe => &[83u8, 85, 66, 83, 67, 82, 73, 66, 69],
            SipMethod::Notify => &[78u8, 79, 84, 73, 70, 89],
            SipMethod::Publish => &[80u8, 85, 66, 76, 73, 83, 72],
            SipMethod::Info => &[73u8, 78, 70, 79],
            SipMethod::Refer => &[82u8, 69, 70, 69, 82],
            SipMethod::Message => &[77u8, 69, 83, 83, 65, 71, 69],
            SipMethod::Update => &[85u8, 80, 68, 65, 84, 69],
        }
    }
}


/// A name/value annotation of a request or response. `Header` is read from the
/// wire; `StaticHeader` is built by this library under one of the standard names.
/// Both read the same through `name` and `value`.
#[derive(Debug, Clone, PartialEq)]
pub enum SipHeader {
    Header(String, String),
    StaticHeader(&'static str, String),
}

impl View for SipHeader {
    type V = (Seq<char>, Seq<char>);

    open spec fn view(&self) -> (Seq<char>, Seq<char>) {
        match self {
            SipHeader::Header(n, v) => (n@, v@),
            SipHeader::StaticHeader(n, v) => (n@, v@),
        }
    }
}

/// The name/value pairs of a header list, in order.
pub open spec fn headers_view(hs: Seq<SipHeader>) -> Seq<(Seq<char>, Seq<char>)> {
    hs.map_values(|h: SipHeader| h@)
}

impl SipHeader {
    /// The header's name, whichever way it was built.
    pub fn name(&self) -> (r: &str)
        ensures
            r@ == self@.0,
    {
        match self {
            SipHeader::Header(name, _) => name.as_str(),
            SipHeader::StaticHeader(name, _) => name,
        }
    }

    /// The header's value, whichever way it was built.
    pub fn value(&self) -> (r: &str)
        ensures
            r@ == self@.1,
    {
        match self {
            SipHeader::Header(_, v) => v.as_str(),
            SipHeader::StaticHeader(_, v) => v.as_str(),
        }
    }
}

/// The decimal digit character of `d`, for `d < 10`.
pub open spec fn digit_char(d: nat) -> char {
    ((48 + d) as u8) as char
}

/// The decimal text of `n`, without leading zeros.
pub open spec fn decimal_text(n: nat) -> Seq<char>
    decreases n,
{
    if n < 10 {
        seq![digit_char(n)]
    } else {
        decimal_text(n / 10).push(digit_char(n % 10))
    }
}

fn digit_str(d: u32) -> (r: &'static str)
    requires
        d < 10,
    ensures
        r@ == seq![digit_char(d as nat)],
{
    proof {
        reveal_strlit("0");
        reveal_strlit("1");
        reveal_strlit("2");
        reveal_strlit("3");
        reveal_strlit("4");
        reveal_strlit("5");
        reveal_strlit("6");
        reveal_strlit("7");
        reveal_strlit("8");
        reveal_strlit("9");
    }
    match d {
        0 => "0",
        1 => "1",
        2 => "2",
        3 => "3",
        4 => "4",
        5 => "5",
        6 => "6",
        7 => "7",
        8 => "8",
        _ => "9",
    }
}

/// Appends the decimal text of `n` to `out`.
pub fn push_decimal(out: &mut String, n: u32)
    ensures
        final(out)@ == old(out)@ + decimal_text(n as nat),
    decreases n,
{
    if n >= 10 {
        push_decimal(out, n / 10);
    }
    out.append(digit_str(n % 10));
    proof {
        if n >= 10 {
            assert(decimal_text(n as nat) == decimal_text((n / 10) as nat).push(digit_char((n % 10) as nat)));
        }
    }
}


/// The text of a URI handed to a header constructor.
pub trait SipUri: Sized {
    spec fn uri_text(&self) -> Seq<char>;

    fn value(self) -> (r: String)
        ensures
            r@ == self.uri_text(),
    ;
}

impl SipUri for String {
    open spec fn uri_text(&self) -> Seq<char> {
        self@
    }

    fn value(self) -> (r: String) {
        self
    }
}

impl<'a> SipUri for &'a str {
    open spec fn uri_text(&self) -> Seq<char> {
        (*self)@
    }

    fn value(self) -> (r: String) {
        self.to_owned()
    }
}

/// A message body: it reports its length in bytes and the label of its content type.
pub trait SipMessageBody {
    spec fn spec_length(&self) -> u32;

    spec fn spec_content_type() -> Seq<char>;

    fn length(&self) -> (r: u32)
        ensures
            r == self.spec_length(),
    ;

    fn content_type() -> (r: &'static str)
        ensures
            r@ == Self::spec_content_type(),
    ;
}

/// The headers that describe a body: its content type, then its length.
pub open spec fn body_headers_view<A: SipMessageBody>(body: &A) -> Seq<(Seq<char>, Seq<char>)> {
    seq![
        (content_type_name(), A::spec_content_type()),
        (content_length_name(), decimal_text(body.spec_length() as nat)),
    ]
}

/// The headers that describe `body`, in the order of `body_headers_view`.
pub fn body_headers<A: SipMessageBody>(body: &A) -> (r: Vec<SipHeader>)
    ensures
        headers_view(r@) == body_headers_view(body),
{
    let mut r: Vec<SipHeader> = Vec::new();
    r.push(SipHeader::ContentType(String::from_str(A::content_type())));
    r.push(SipHeader::ContentLength(body.length()));
    assert(headers_view(r@) =~= body_headers_view(body));
    r
}

/// A text body, labelled as a session description.
impl SipMessageBody for String {
    open spec fn spec_length(&self) -> u32 {
        (encode_utf8(self@).len() as usize) as u32
    }

    open spec fn spec_content_type() -> Seq<char> {
        "application/sdp"@
    }

    fn length(&self) -> (r: u32) {
        let n = self.as_str().len();
        #[verifier::truncate]
        (n as u32)
    }

    fn content_type() -> (r: &'static str) {
        "application/sdp"
    }
}

pub open spec fn allow_name() -> Seq<char> { "Allow"@ }
pub open spec fn call_id_name() -> Seq<char> { "Call-ID"@ }
pub open spec fn contact_name() -> Seq<char> { "Contact"@ }
pub open spec fn content_length_name() -> Seq<char> { "Content-Length"@ }
pub open spec fn content_type_name() -> Seq<char> { "Content-Type"@ }
pub open spec fn cseq_name() -> Seq<char> { "CSeq"@ }
pub open spec fn from_name() -> Seq<char> { "From"@ }
pub open spec fn max_forwards_name() -> Seq<char> { "Max-Forwards"@ }
pub open spec fn route_name() -> Seq<char> { "Route"@ }
pub open spec fn to_name() -> Seq<char> { "To"@ }
pub open spec fn user_agent_name() -> Seq<char> { "User-Agent"@ }
pub open spec fn via_name() -> Seq<char> { "Via"@ }

/// Builders of the standard headers.
#[allow(non_snake_case)]
impl SipHeader {
    pub fn Allow(value: String) -> (r: SipHeader)
        ensures
            r@ == (allow_name(), value@),
    {
        SipHeader::StaticHeader("Allow", value)
    }

    pub fn CallID(value: String) -> (r: SipHeader)
        ensures
            r@ == (call_id_name(), value@),
    {
        SipHeader::StaticHeader("Call-ID", value)
    }

    pub fn Contact<T: SipUri>(value: T) -> (r: SipHeader)
        ensures
            r@ == (contact_name(), value.uri_text()),
    {
        SipHeader::StaticHeader("Contact", value.value())
    }

    pub fn ContentLength(value: u32) -> (r: SipHeader)
        ensures
            r@ == (content_length_name(), decimal_text(value as nat)),
    {
        let mut text = String::new();
        push_decimal(&mut text, value);
        assert(text@ =~= decimal_text(value as nat));
        SipHeader::StaticHeader("Content-Length", text)
    }

    pub fn ContentType(value: String) -> (r: SipHeader)
        ensures
            r@ == (content_type_name(), value@),
    {
        SipHeader::StaticHeader("Content-Type", value)
    }

    pub fn CSeq(value: String) -> (r: SipHeader)
        ensures
            r@ == (cseq_name(), value@),
    {
        SipHeader::StaticHeader("CSeq", value)
    }

    pub fn From<T: SipUri>(value: T) -> (r: SipHeader)
        ensures
            r@ == (from_name(), value.uri_text()),
    {
        SipHeader::StaticHeader("From", value.value())
    }

    pub fn MaxForwards(value: u8) -> (r: SipHeader)
        ensures
            r@ == (max_forwards_name(), decimal_text(value as nat)),
    {
        let mut text = String::new();
        push_decimal(&mut text, value as u32);
        assert(text@ =~= decimal_text(value as nat));
        SipHeader::StaticHeader("Max-Forwards", text)
    }

    pub fn Route(value: String) -> (r: SipHeader)
        ensures
            r@ == (route_name(), value@),
    {
        SipHeader::StaticHeader("Route", value)
    }

    pub fn To<T: SipUri>(value: T) -> (r: SipHeader)
        ensures
            r@ == (to_name(), value.uri_text()),
    {
        SipHeader::StaticHeader("To", value.value())
    }

    pub fn UserAgent(value: String) -> (r: SipHeader)
        ensures
            r@ == (user_agent_name(), value@),
    {
        SipHeader::StaticHeader("User-Agent", value)
    }

    pub fn Via(value: String) -> (r: SipHeader)
        ensures
            r@ == (via_name(), value@),
    {
        SipHeader::StaticHeader("Via", value)
    }
}


/// The numeric code of a response.
#[derive(Debug, Clone, Copy, PartialEq, Eq, Structural)]
pub struct StatusCode(pub u16);

impl StatusCode {
    /// A final response is any that is not provisional (1xx or below).
    pub fn is_final(&self) -> (r: bool)
        ensures
            r == (self.0 > 199),
    {
        self.0 > 199
    }
}

impl From<u16> for StatusCode {
    fn from(code: u16) -> (r: StatusCode)
        ensures
            r.0 == code,
    {
        StatusCode(code)
    }
}

impl vstd::std_specs::convert::FromSpecImpl<u16> for StatusCode {
    open spec fn obeys_from_spec() -> bool {
        true
    }

    open spec fn from_spec(code: u16) -> StatusCode {
        StatusCode(code)
    }
}

/// A message of the protocol: a request, a response, or one of the two keep-alive
/// signals. `T` is the body.
#[derive(Debug, Clone, PartialEq)]
pub enum SipMessage<T> {
    SipRequest { method: SipMethod, request_uri: String, headers: Vec<SipHeader>, body: T },
    SipResponse { status_code: StatusCode, reason_phrase: String, headers: Vec<SipHeader>, body: T },
    ClientKeepAlive,
    ServerKeepAlive,
}

/// What a message with a text body holds, with each header read as its name/value pair.
pub enum MessageView {
    Request {
        method: SipMethod,
        request_uri: Seq<char>,
        headers: Seq<(Seq<char>, Seq<char>)>,
        body: Seq<char>,
    },
    Response {
        status_code: u16,
        reason_phrase: Seq<char>,
        headers: Seq<(Seq<char>, Seq<char>)>,
        body: Seq<char>,
    },
    ClientKeepAlive,
    ServerKeepAlive,
}

impl View for SipMessage<String> {
    type V = MessageView;

    open spec fn view(&self) -> MessageView {
        match self {
            SipMessage::SipRequest { method, request_uri, headers, body } => MessageView::Request {
                method: *method,
                request_uri: request_uri@,
                headers: headers_view(headers@),
                body: body@,
            },
            SipMessage::SipResponse { status_code, reason_phrase, headers, body } =>
                MessageView::Response {
                status_code: status_code.0,
                reason_phrase: reason_phrase@,
                headers: headers_view(headers@),
                body: body@,
            },
            SipMessage::ClientKeepAlive => MessageView::ClientKeepAlive,
            SipMessage::ServerKeepAlive => MessageView::ServerKeepAlive,
        }
    }
}

/// True when some header of `hs` is named `name`.
pub open spec fn has_named(hs: Seq<SipHeader>, name: Seq<char>) -> bool {
    exists|i: int| 0 <= i < hs.len() && hs[i]@.0 == name
}

/// True when `i` is the position of the first header of `hs` named `name`.
pub open spec fn is_first_named(hs: Seq<SipHeader>, name: Seq<char>, i: int) -> bool {
    &&& 0 <= i < hs.len()
    &&& hs[i]@.0 == name
    &&& forall|j: int| 0 <= j < i ==> hs[j]@.0 != name
}

/// The headers of a message; keep-alive signals have none.
pub open spec fn message_headers<T>(m: SipMessage<T>) -> Seq<SipHeader> {
    match m {
        SipMessage::SipRequest { headers, .. } => headers@,
        SipMessage::SipResponse { headers, .. } => headers@,
        _ => Seq::empty(),
    }
}

/// True when `a` and `b` hold the same text.
pub fn same_text(a: &str, b: &str) -> (r: bool)
    ensures
        r == (a@ == b@),
{
    let x = a.as_bytes();
    let y = b.as_bytes();
    proof {
        encode_utf8_decode_utf8(a@);
        encode_utf8_decode_utf8(b@);
        assert(x@ == encode_utf8(a@));
        assert(y@ == encode_utf8(b@));
    }
    if x.len() != y.len() {
        return false;
    }
    let mut i: usize = 0;
    while i < x.len()
        invariant
            x@ == encode_utf8(a@),
            y@ == encode_utf8(b@),
            decode_utf8(encode_utf8(a@)) == a@,
            decode_utf8(encode_utf8(b@)) == b@,
            x@.len() == y@.len(),
            i <= x@.len(),
            forall|j: int| 0 <= j < i ==> x@[j] == y@[j],
        decreases x@.len() - i,
    {
        if x[i] != y[i] {
            assert(x@[i as int] != y@[i as int]);
            return false;
        }
        i += 1;
    }
    assert(x@ =~= y@);
    true
}

/// A text in the shape of a random call identifier: 36 characters, hyphens at
/// 8, 13, 18 and 23, lower-case hexadecimal digits elsewhere.
pub open spec fn is_call_id_text(s: Seq<char>) -> bool {
    &&& s.len() == 36
    &&& forall|i: int|
        0 <= i < 36 ==> if i == 8 || i == 13 || i == 18 || i == 23 {
            s[i] == '-'
        } else {
            ('0' <= s[i] <= '9') || ('a' <= s[i] <= 'f')
        }
}

/// Relies on uuid's `Uuid::new_v4` for a random identifier, and on its `Display`,
/// which writes the hyphenated lower-case form.
#[verifier::external_body]
fn new_call_id() -> (r: String)
    ensures
        is_call_id_text(r@),
{
    uuid::Uuid::new_v4().to_string()
}

pub open spec fn invite_via() -> Seq<char> { "SIP/2.0/UDP 184.23.0.6:15060;rport;branch=1234"@ }
pub open spec fn invite_cseq() -> Seq<char> { "12345 INVITE"@ }
pub open spec fn invite_allow() -> Seq<char> { "ACK INVITE REGISTER BYE OPTIONS"@ }
pub open spec fn invite_user_agent() -> Seq<char> { "sipcat 0.0"@ }

/// The standard headers of an outgoing invitation, in their fixed order.
pub open spec fn invite_headers(
    from: Seq<char>,
    to: Seq<char>,
    contact: Seq<char>,
    call_id: Seq<char>,
) -> Seq<(Seq<char>, Seq<char>)> {
    seq![
        (via_name(), invite_via()),
        (max_forwards_name(), decimal_text(70)),
        (from_name(), from),
        (to_name(), to),
        (contact_name(), contact),
        (call_id_name(), call_id),
        (cseq_name(), invite_cseq()),
        (allow_name(), invite_allow()),
        (user_agent_name(), invite_user_agent()),
    ]
}

impl<A: SipMessageBody> SipMessage<A> {
    /// An invitation to `request_uri` with a fresh random call identifier.
    pub fn invite<UTo: SipUri, UFrom: SipUri>(
        request_uri: UTo,
        to: UTo,
        from: UFrom,
        contact: UFrom,
        body: A,
    ) -> (r: SipMessage<A>)
        ensures
            exists|call_id: Seq<char>|
                is_call_id_text(call_id) && Self::is_invite(
                    r,
                    request_uri.uri_text(),
                    invite_headers(from.uri_text(), to.uri_text(), contact.uri_text(), call_id)
                        + body_headers_view(&body),
                    body,
                ),
    {
        let call_id = new_call_id();
        let ghost id = call_id@;
        let r = Self::invite_with_call_id(request_uri, to, from, contact, body, call_id);
        assert(is_call_id_text(id));
        r
    }

    /// True when `m` is an invitation to `uri` with the headers `headers` and the body `body`.
    pub open spec fn is_invite(
        m: SipMessage<A>,
        uri: Seq<char>,
        headers: Seq<(Seq<char>, Seq<char>)>,
        body: A,
    ) -> bool {
        match m {
            SipMessage::SipRequest { method, request_uri, headers: hs, body: b } => {
                &&& method == SipMethod::Invite
                &&& request_uri@ == uri
                &&& headers_view(hs@) == headers
                &&& b == body
            },
            _ => false,
        }
    }

    /// An invitation to `request_uri` that carries `call_id` as its call identifier.
    pub fn invite_with_call_id<UTo: SipUri, UFrom: SipUri>(
        request_uri: UTo,
        to: UTo,
        from: UFrom,
        contact: UFrom,
        body: A,
        call_id: String,
    ) -> (r: SipMessage<A>)
        ensures
            Self::is_invite(
                r,
                request_uri.uri_text(),
                invite_headers(from.uri_text(), to.uri_text(), contact.uri_text(), call_id@)
                    + body_headers_view(&body),
                body,
            ),
    {
        let ghost fixed = invite_headers(from.uri_text(), to.uri_text(), contact.uri_text(), call_id@);
        let mut headers: Vec<SipHeader> = Vec::new();
        headers.push(SipHeader::Via(String::from_str("SIP/2.0/UDP 184.23.0.6:15060;rport;branch=1234")));
        headers.push(SipHeader::MaxForwards(70));
        headers.push(SipHeader::From(from));
        headers.push(SipHeader::To(to));
        headers.push(SipHeader::Contact(contact));
        headers.push(SipHeader::CallID(call_id));
        headers.push(SipHeader::CSeq(String::from_str("12345 INVITE")));
        headers.push(SipHeader::Allow(String::from_str("ACK INVITE REGISTER BYE OPTIONS")));
        headers.push(SipHeader::UserAgent(String::from_str("sipcat 0.0")));
        assert(headers_view(headers@) =~= fixed);
        let mut body_headers = body_headers(&body);
        let ghost bh = body_headers@;
        headers.append(&mut body_headers);
        assert(headers_view(headers@) =~= fixed + body_headers_view(&body)) by {
            assert(headers@ =~= headers@.subrange(0, 9) + bh);
        }
        let uri = request_uri.value();
        SipMessage::SipRequest { method: SipMethod::Invite, request_uri: uri, headers, body }
    }
}

impl<T> SipMessage<T> {
    /// The first header named `name`, if any; keep-alive signals have none.
    pub fn header(&self, name: String) -> (r: Option<&SipHeader>)
        ensures
            r matches None ==> !has_named(message_headers(*self), name@),
            r matches Some(h) ==> exists|i: int|
                is_first_named(message_headers(*self), name@, i) && message_headers(*self)[i] == *h,
    {
        match self {
            SipMessage::SipRequest { headers, .. } => {
                assert(message_headers(*self) == headers@);
                find_header(headers, &name)
            },
            SipMessage::SipResponse { headers, .. } => {
                assert(message_headers(*self) == headers@);
                find_header(headers, &name)
            },
            _ => None,
        }
    }

    /// Only a response can be final, and it is when its status code is.
    pub fn is_final(&self) -> (r: bool)
        ensures
            r == (self matches SipMessage::SipResponse { status_code, .. } && status_code.0 > 199),
    {
        match self {
            SipMessage::SipResponse { status_code, .. } => status_code.is_final(),
            _ => false,
        }
    }
}

fn find_header<'a>(headers: &'a Vec<SipHeader>, name: &String) -> (r: Option<&'a SipHeader>)
    ensures
        r matches None ==> !has_named(headers@, name@),
        r matches Some(h) ==> exists|i: int| is_first_named(headers@, name@, i) && headers@[i] == *h,
{
    let mut i: usize = 0;
    while i < headers.len()
        invariant
            i <= headers@.len(),
            forall|j: int| 0 <= j < i ==> headers@[j]@.0 != name@,
        decreases headers@.len() - i,
    {
        let h = &headers[i];
        if same_text(h.name(), name.as_str()) {
            assert(is_first_named(headers@, name@, i as int));
            return Some(h);
        }
        i += 1;
    }
    None
}

} // verus!
