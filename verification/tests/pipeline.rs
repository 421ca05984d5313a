use saunadge::FetchOutcome;
use saunadge::SaunadgeError;
use saunadge::badge;
use saunadge::compose_error;
use saunadge::compose_success;
use saunadge::extract_sakatsu;
use saunadge::get_sakatsu;
use saunadge::profile_url;
use saunadge::status_code;

fn page_with(count: &str) -> String {
    format!(
        "<html><body><nav><span class=\"p-localNav_count\">{}</span></nav></body></html>",
        count
    )
}

#[test]
fn scenario_match_gives_count_and_200() {
    let fetch = FetchOutcome::Fetched {
        status: 200,
        body: page_with("42"),
    };
    let (resp, status) = badge(&fetch);
    assert_eq!(status, 200);
    assert!(!resp.is_error);
    assert_eq!(resp.message, "42");
}

#[test]
fn scenario_non_200_gives_error_and_500() {
    let fetch = FetchOutcome::Fetched {
        status: 404,
        body: page_with("42"),
    };
    let (resp, status) = badge(&fetch);
    assert_eq!(status, 500);
    assert!(resp.is_error);
    assert_eq!(resp.message, "error");
}

#[test]
fn scenario_no_matching_element_gives_error_and_500() {
    let fetch = FetchOutcome::Fetched {
        status: 200,
        body: String::from("<html><body><p>nothing here</p></body></html>"),
    };
    let (resp, status) = badge(&fetch);
    assert_eq!(status, 500);
    assert!(resp.is_error);
    assert_eq!(resp.message, "error");
}

#[test]
fn scenario_connection_failure_gives_error_and_500() {
    let (resp, status) = badge(&FetchOutcome::Failed);
    assert_eq!(status, 500);
    assert!(resp.is_error);
    assert_eq!(resp.message, "error");
    let reason = get_sakatsu(&FetchOutcome::Failed).unwrap_err();
    assert_eq!(reason, SaunadgeError::FetchFailed);
    assert_eq!(reason.describe(), "failed to get sakatsu by id");
}

#[test]
fn status_201_is_not_a_success() {
    let fetch = FetchOutcome::Fetched {
        status: 201,
        body: page_with("42"),
    };
    assert_eq!(get_sakatsu(&fetch).unwrap_err(), SaunadgeError::FetchFailed);
}

#[test]
fn extraction_takes_first_text_fragment() {
    let body =
        "<html><body><span class=\"p-localNav_count\">42<b>x</b>43</span></body></html>";
    assert_eq!(extract_sakatsu(body).unwrap(), "42");
}

#[test]
fn extraction_takes_first_matching_element() {
    let body = "<html><body><span class=\"p-localNav_count\">7</span>\
                <span class=\"p-localNav_count\">8</span></body></html>";
    assert_eq!(extract_sakatsu(body).unwrap(), "7");
}

#[test]
fn extraction_keeps_text_verbatim() {
    let body = "<html><body><span class=\"p-localNav_count\"> 42 </span></body></html>";
    assert_eq!(extract_sakatsu(body).unwrap(), " 42 ");
}

#[test]
fn empty_element_is_an_error() {
    let body = "<html><body><span class=\"p-localNav_count\"></span></body></html>";
    assert_eq!(extract_sakatsu(body).unwrap_err(), SaunadgeError::EmptyText);
}

#[test]
fn missing_element_is_not_found() {
    let body = "<html><body></body></html>";
    assert_eq!(extract_sakatsu(body).unwrap_err(), SaunadgeError::NotFound);
}

#[test]
fn error_variants_have_distinct_diagnostics() {
    assert_eq!(
        SaunadgeError::ParseFailed.describe(),
        "selector failed to compile"
    );
    assert_eq!(
        SaunadgeError::NotFound.describe(),
        "no element matched the selector"
    );
    assert_eq!(
        SaunadgeError::EmptyText.describe(),
        "matched element has no text"
    );
}

#[test]
fn static_fields_are_identical_across_responses() {
    let ok = compose_success(String::from("42"));
    let err = compose_error();
    assert_eq!(ok.schema_version, 1);
    assert_eq!(ok.schema_version, err.schema_version);
    assert_eq!(ok.label, "Sakatsu");
    assert_eq!(ok.label, err.label);
    assert_eq!(ok.color, "0051e0");
    assert_eq!(ok.color, err.color);
    assert_eq!(ok.cache_seconds, 1800);
    assert_eq!(ok.cache_seconds, err.cache_seconds);
    assert!(ok.logo_svg.starts_with("<svg"));
    assert_eq!(ok.logo_svg, err.logo_svg);
}

#[test]
fn profile_url_interpolates_the_identifier_verbatim() {
    assert_eq!(
        profile_url("abc123"),
        "https://sauna-ikitai.com/saunners/abc123"
    );
    assert_eq!(profile_url(""), "https://sauna-ikitai.com/saunners/");
    assert_eq!(
        profile_url("a/b?c"),
        "https://sauna-ikitai.com/saunners/a/b?c"
    );
}

#[test]
fn composers_set_only_flag_and_message() {
    let ok = compose_success(String::from("123"));
    assert!(!ok.is_error);
    assert_eq!(ok.message, "123");
    assert_eq!(status_code(&ok), 200);
    let err = compose_error();
    assert!(err.is_error);
    assert_eq!(err.message, "error");
    assert_eq!(status_code(&err), 500);
}
