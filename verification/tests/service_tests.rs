use blasphemy::service::{decision_status, handle_request, RequestDecision};

fn decide(method: &str, path: &str) -> RequestDecision {
    handle_request(&method.as_bytes().to_vec(), &path.as_bytes().to_vec())
}

#[test]
fn well_formed_replace_request_enqueues_uppercased() {
    let d = decide("GET", "/replace/a/with/z");
    assert_eq!(d, RequestDecision::Enqueue(('A', 'Z')));
    assert_eq!(decision_status(&d), 200);
}

#[test]
fn multi_character_segment_is_rejected() {
    let d = decide("GET", "/replace/ab/with/z");
    assert_eq!(d, RequestDecision::BadFormat);
    assert_eq!(decision_status(&d), 400);
}

#[test]
fn wrong_keyword_is_rejected() {
    let d = decide("GET", "/swap/a/with/z");
    assert_eq!(d, RequestDecision::BadFormat);
    assert_eq!(decision_status(&d), 400);
}

#[test]
fn non_get_method_is_rejected() {
    let d = decide("POST", "/replace/a/with/z");
    assert_eq!(d, RequestDecision::MethodNotAllowed);
    assert_eq!(decision_status(&d), 405);
}

#[test]
fn non_alphabetic_letter_is_rejected() {
    let d = decide("GET", "/replace/1/with/z");
    assert_eq!(d, RequestDecision::BadLetter);
    assert_eq!(decision_status(&d), 400);
}

#[test]
fn keywords_match_case_insensitively() {
    assert_eq!(
        decide("GET", "/REPLACE/q/WITH/j"),
        RequestDecision::Enqueue(('Q', 'J'))
    );
    assert_eq!(
        decide("GET", "/replace/A/with/Z"),
        RequestDecision::Enqueue(('A', 'Z'))
    );
}

#[test]
fn empty_segments_are_rejected() {
    let trailing = decide("GET", "/replace/a/with/z/");
    assert_eq!(trailing, RequestDecision::BadFormat);
    assert_eq!(decision_status(&trailing), 400);
    assert_eq!(
        decide("GET", "//replace//a/with/z"),
        RequestDecision::BadFormat
    );
    assert_eq!(
        decide("GET", "/replace//a/with/z"),
        RequestDecision::BadFormat
    );
    assert_eq!(
        decide("GET", "/replace///with/z"),
        RequestDecision::BadFormat
    );
}

#[test]
fn missing_leading_slash_is_rejected() {
    assert_eq!(
        decide("GET", "replace/a/with/z"),
        RequestDecision::BadFormat
    );
}

#[test]
fn too_few_segments_are_rejected() {
    assert_eq!(decide("GET", "/replace/a"), RequestDecision::BadFormat);
    assert_eq!(decide("GET", ""), RequestDecision::BadFormat);
    assert_eq!(decide("GET", "/"), RequestDecision::BadFormat);
}

#[test]
fn extra_segments_are_rejected() {
    assert_eq!(
        decide("GET", "/replace/a/with/z/now"),
        RequestDecision::BadFormat
    );
}
