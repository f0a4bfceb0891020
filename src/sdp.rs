use vstd::prelude::*;
use vstd::string::*;

verus! {

/// One media section of a session description.
pub struct MediaDescription {
    media_name: String,
    media_title: Option<String>,
    connection_information: Option<String>,
    bandwidth_information: Vec<String>,
    encryption_key: Option<String>,
    attributes: Vec<String>,
}

/// A session description: the payload that an invitation carries.
pub struct Sdp {
    version: u8,
    originator: String,
    session_name: String,
    session_title: Option<String>,
    description_uri: Option<String>,
    email_addresses: Vec<String>,
    phone_numbers: Vec<String>,
    connection_information: Option<String>,
    bandwidth_information: Vec<String>,
    time_active: (u64, u64),
    repeat_times: Vec<String>,
    zone_adjustment: Option<String>,
    encryption_key: Option<String>,
    attributes: Vec<String>,
    media_descriptions: Vec<MediaDescription>,
}

/// The fixed session description offered for an audio call, one attribute per
/// line, each line ended by a carriage return and a line feed.
pub open spec fn audio_offer() -> Seq<char> {
    "v=0\r\n\
o=- 3704930061 3704930061 IN IP4 192.168.42.81\r\n\
s=pjmedia\r\n\
b=AS:117\r\n\
t=0 0\r\n\
a=X-nat:0\r\n\
m=audio 4004 RTP/AVP 0 103 102 104 125 109 3 8 9 101\r\n\
c=IN IP4 192.168.42.81\r\n\
b=TIAS:96000\r\n\
a=rtcp:4005 IN IP4 192.168.42.81\r\n\
a=sendrecv\r\n\
a=rtpmap:0 PCMU/8000\r\n\
a=rtpmap:103 speex/16000\r\n\
a=rtpmap:102 speex/8000\r\n\
a=rtpmap:104 speex/32000\r\n\
a=rtpmap:125 opus/48000/2\r\n\
a=fmtp:125 useinbandfec=1\r\n\
a=rtpmap:109 iLBC/8000\r\n\
a=fmtp:109 mode=30\r\n\
a=rtpmap:3 GSM/8000\r\n\
a=rtpmap:8 PCMA/8000\r\n\
a=rtpmap:9 G722/8000\r\n\
a=rtpmap:101 telephone-event/8000\r\n\
a=fmtp:101 0-16\r\n\
"@
}

impl Sdp {
    /// The fixed audio offer. The port is not yet written into it.
    pub fn new(rtp_port: u16) -> (r: String)
        ensures
            r@ == audio_offer(),
    {
        String::from_str("v=0\r\n\
o=- 3704930061 3704930061 IN IP4 192.168.42.81\r\n\
s=pjmedia\r\n\
b=AS:117\r\n\
t=0 0\r\n\
a=X-nat:0\r\n\
m=audio 4004 RTP/AVP 0 103 102 104 125 109 3 8 9 101\r\n\
c=IN IP4 192.168.42.81\r\n\
b=TIAS:96000\r\n\
a=rtcp:4005 IN IP4 192.168.42.81\r\n\
a=sendrecv\r\n\
a=rtpmap:0 PCMU/8000\r\n\
a=rtpmap:103 speex/16000\r\n\
a=rtpmap:102 speex/8000\r\n\
a=rtpmap:104 speex/32000\r\n\
a=rtpmap:125 opus/48000/2\r\n\
a=fmtp:125 useinbandfec=1\r\n\
a=rtpmap:109 iLBC/8000\r\n\
a=fmtp:109 mode=30\r\n\
a=rtpmap:3 GSM/8000\r\n\
a=rtpmap:8 PCMA/8000\r\n\
a=rtpmap:9 G722/8000\r\n\
a=rtpmap:101 telephone-event/8000\r\n\
a=fmtp:101 0-16\r\n\
")
    }
}

} // verus!
