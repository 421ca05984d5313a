use vstd::prelude::*;

verus! {

/// The JSON badge payload that every request produces. Success and error
/// responses share one shape: only `is_error` and `message` vary.
pub struct BadgeResponse {
    pub is_error: bool,
    pub schema_version: u8,
    pub label: String,
    pub message: String,
    pub color: String,
    pub cache_seconds: u16,
    pub logo_svg: String,
}

/// The fixed badge label.
pub open spec fn label_spec() -> Seq<char> {
    "Sakatsu"@
}

/// The fixed badge colour, a hex code without a leading `#`.
pub open spec fn color_spec() -> Seq<char> {
    "0051e0"@
}

/// The fixed schema version of the badge payload.
pub open spec fn schema_version_spec() -> u8 {
    1
}

/// The fixed advisory cache duration, in seconds.
pub open spec fn cache_seconds_spec() -> u16 {
    1800
}

/// The fixed embedded logo, one SVG document.
pub open spec fn logo_svg_spec() -> Seq<char> {
    "<svg xmlns=\"http://www.w3.org/2000/svg\" viewBox=\"0 0 54.5 57.5\"><defs><style>.cls-1{fill:#fff;}</style></defs><g id=\"\u{30ec}\u{30a4}\u{30e4}\u{30fc}_2\" data-name=\"\u{30ec}\u{30a4}\u{30e4}\u{30fc} 2\"><g id=\"\u{30ec}\u{30a4}\u{30e4}\u{30fc}_1-2\" data-name=\"\u{30ec}\u{30a4}\u{30e4}\u{30fc} 1\"><path class=\"cls-1\" d=\"M6.6,36,6,46.2c7.5-3.5,13.1-6.1,16.1-7.4l.3-7.7c2.6-1.8,4.7-2.4,6.8-1.9C27.1,39.2,16.4,55,14.3,57.5,23.1,55.4,37.1,52,37.1,52A69.42,69.42,0,0,0,47.2,25.3c3.5.4,5.6-.3,6.4-1.7l.9-18.1a8.94,8.94,0,0,1-5.9,1.2L48.9,0,30.2,4.4l-.4,6.5a10.93,10.93,0,0,0-6.3,1.5l.3-6.5L8.1,9.9l-.5,7.3c-1.5.7-4,.7-6.6.4L0,36.5C2.3,37.2,4.4,37.4,6.6,36Z\"/></g></g></svg>"@
}

/// The embedded logo as text, for building responses.
pub fn logo_svg_text() -> (r: &'static str)
    ensures
        r@ == logo_svg_spec(),
{
    "<svg xmlns=\"http://www.w3.org/2000/svg\" viewBox=\"0 0 54.5 57.5\"><defs><style>.cls-1{fill:#fff;}</style></defs><g id=\"\u{30ec}\u{30a4}\u{30e4}\u{30fc}_2\" data-name=\"\u{30ec}\u{30a4}\u{30e4}\u{30fc} 2\"><g id=\"\u{30ec}\u{30a4}\u{30e4}\u{30fc}_1-2\" data-name=\"\u{30ec}\u{30a4}\u{30e4}\u{30fc} 1\"><path class=\"cls-1\" d=\"M6.6,36,6,46.2c7.5-3.5,13.1-6.1,16.1-7.4l.3-7.7c2.6-1.8,4.7-2.4,6.8-1.9C27.1,39.2,16.4,55,14.3,57.5,23.1,55.4,37.1,52,37.1,52A69.42,69.42,0,0,0,47.2,25.3c3.5.4,5.6-.3,6.4-1.7l.9-18.1a8.94,8.94,0,0,1-5.9,1.2L48.9,0,30.2,4.4l-.4,6.5a10.93,10.93,0,0,0-6.3,1.5l.3-6.5L8.1,9.9l-.5,7.3c-1.5.7-4,.7-6.6.4L0,36.5C2.3,37.2,4.4,37.4,6.6,36Z\"/></g></g></svg>"
}

/// The static fields carry the fixed constants; only `is_error` and
/// `message` are free.
pub open spec fn static_fields_ok(resp: BadgeResponse) -> bool {
    &&& resp.schema_version == schema_version_spec()
    &&& resp.label@ == label_spec()
    &&& resp.color@ == color_spec()
    &&& resp.cache_seconds == cache_seconds_spec()
    &&& resp.logo_svg@ == logo_svg_spec()
}

/// Builds the success response: `is_error` false and the extracted
/// statistic as the message, with the shared static fields.
pub fn compose_success(message: String) -> (r: BadgeResponse)
    ensures
        static_fields_ok(r),
        !r.is_error,
        r.message@ == message@,
{
    BadgeResponse {
        is_error: false,
        schema_version: 1,
        label: String::from_str("Sakatsu"),
        message,
        color: String::from_str("0051e0"),
        cache_seconds: 1800,
        logo_svg: String::from_str(logo_svg_text()),
    }
}

/// Builds the error response: `is_error` true and the fixed message
/// `"error"`, whatever the internal failure was, with the shared static
/// fields.
pub fn compose_error() -> (r: BadgeResponse)
    ensures
        static_fields_ok(r),
        r.is_error,
        r.message@ == "error"@,
{
    BadgeResponse {
        is_error: true,
        schema_version: 1,
        label: String::from_str("Sakatsu"),
        message: String::from_str("error"),
        color: String::from_str("0051e0"),
        cache_seconds: 1800,
        logo_svg: String::from_str(logo_svg_text()),
    }
}

/// The HTTP status that a response is served with: `is_error` alone
/// decides between 200 and 500.
pub fn status_code(resp: &BadgeResponse) -> (s: u16)
    ensures
        s == status_code_spec(resp.is_error),
{
    if resp.is_error {
        500
    } else {
        200
    }
}

/// The status rule: 500 for an error response, 200 otherwise.
pub open spec fn status_code_spec(is_error: bool) -> u16 {
    if is_error {
        500
    } else {
        200
    }
}

/// Any two responses built with the shared constants agree on every
/// static field, byte for byte, success or error alike.
pub proof fn lemma_static_fields_identical(a: BadgeResponse, b: BadgeResponse)
    requires
        static_fields_ok(a),
        static_fields_ok(b),
    ensures
        a.schema_version == b.schema_version,
        a.label@ == b.label@,
        a.color@ == b.color@,
        a.cache_seconds == b.cache_seconds,
        a.logo_svg@ == b.logo_svg@,
{
}

} // verus!
