use cryptoracle::codec::decode_histo_response;
use cryptoracle::codec::encode_histo_response;

const SAMPLE: &str = r#"{"Response":"Success","Type":100,"Aggregated":true,"Data":
        [{
            "time":1511610600,
            "high":18.17,
            "low":18.11,
            "open":18.17,
            "volumefrom":106.96,
            "volumeto":1940.67,
            "close":18.12
        },
        {
            "time":1511611200,
            "high":18.15,
            "low":18.12,
            "open":18.12,
            "volumefrom":115.53,
            "volumeto":2095.1500000000007,
            "close":18.14
        },
        {
            "time":1511611800,
            "high":18.15,
            "low":18.12,
            "open":18.14,
            "volumefrom":255.87,
            "volumeto":4643.15,
            "close":18.14
        },
        {
            "time":1511612400,
            "high":18.23,
            "low":18.14,
            "open":18.14,
            "volumefrom":234.71999999999998,
            "volumeto":4272.09,
            "close":18.23
        },
        {
            "time":1511613000,
            "high":18.33,
            "low":18.23,
            "open":18.23,
            "volumefrom":324.35,
            "volumeto":5940.08,
            "close":18.32
        }],
        "TimeTo":1511622900,
        "TimeFrom":1511610600,
        "FirstValueInArray":true,
        "ConversionType": {
            "type":"invert",
            "conversionSymbol":""
            }
        }"#;

#[test]
fn test_api() {
    let data = SAMPLE;
    let response = decode_histo_response(data.as_bytes());
    assert!(response.is_ok());
}

#[test]
fn sample_payload_fields() {
    let r = decode_histo_response(SAMPLE.as_bytes()).unwrap();
    assert_eq!(r.response, b"Success".to_vec());
    assert_eq!(r.response_type, 100);
    assert!(r.aggregated);
    assert_eq!(r.data.len(), 5);
    assert_eq!(r.data[0].time, 1511610600);
    assert_eq!(r.data[4].time, 1511613000);
    for (k, it) in r.data.iter().enumerate() {
        assert_eq!(it.time, 1511610600 + 600 * k as u64);
    }
    assert_eq!(r.data[4].close, b"18.32".to_vec());
    assert_eq!(r.data[0].high, b"18.17".to_vec());
    assert_eq!(r.data[1].volumeto, b"2095.1500000000007".to_vec());
    assert_eq!(r.time_to, 1511622900);
    assert_eq!(r.time_from, 1511610600);
}

#[test]
fn decoding_is_deterministic() {
    let a = decode_histo_response(SAMPLE.as_bytes()).unwrap();
    let b = decode_histo_response(SAMPLE.as_bytes()).unwrap();
    assert_eq!(a.response, b.response);
    assert_eq!(a.data.len(), b.data.len());
    for k in 0..a.data.len() {
        assert_eq!(a.data[k].time, b.data[k].time);
        assert_eq!(a.data[k].open, b.data[k].open);
        assert_eq!(a.data[k].close, b.data[k].close);
    }
}

#[test]
fn minimal_document() {
    let data = r#"{"Response":"Success","Type":100,"Aggregated":false,"Data":[],"TimeTo":2,"TimeFrom":1}"#;
    let r = decode_histo_response(data.as_bytes()).unwrap();
    assert_eq!(r.data.len(), 0);
    assert!(!r.aggregated);
}

#[test]
fn data_replaced_by_string_is_rejected() {
    let data = r#"{"Response":"Success","Type":100,"Aggregated":true,"Data":"oops","TimeTo":2,"TimeFrom":1}"#;
    assert!(decode_histo_response(data.as_bytes()).is_err());
}

#[test]
fn missing_member_is_rejected() {
    let data = r#"{"Response":"Success","Type":100,"Aggregated":true,"Data":[],"TimeTo":2}"#;
    assert!(decode_histo_response(data.as_bytes()).is_err());
}

#[test]
fn duplicate_member_is_rejected() {
    let data = r#"{"Response":"Success","Type":100,"Type":100,"Aggregated":true,"Data":[],"TimeTo":2,"TimeFrom":1}"#;
    assert!(decode_histo_response(data.as_bytes()).is_err());
}

#[test]
fn truncated_payload_is_rejected() {
    let data = r#"{"Response":"Success","Type":100,"Aggregated":true,"Data":[],"TimeTo":2,"TimeFr"#;
    assert!(decode_histo_response(data.as_bytes()).is_err());
}

#[test]
fn trailing_garbage_is_rejected() {
    let data = r#"{"Response":"Success","Type":100,"Aggregated":true,"Data":[],"TimeTo":2,"TimeFrom":1} x"#;
    assert!(decode_histo_response(data.as_bytes()).is_err());
}

#[test]
fn trailing_whitespace_is_accepted() {
    let data = "{\"Response\":\"ok\",\"Type\":0,\"Aggregated\":true,\"Data\":[],\"TimeTo\":2,\"TimeFrom\":1}  \n";
    assert!(decode_histo_response(data.as_bytes()).is_ok());
}

#[test]
fn incomplete_item_is_rejected() {
    let data = r#"{"Response":"ok","Type":0,"Aggregated":true,"Data":[{"time":5}],"TimeTo":2,"TimeFrom":1}"#;
    assert!(decode_histo_response(data.as_bytes()).is_err());
}

#[test]
fn unknown_members_are_skipped() {
    let data = r#"{"Extra":{"deep":[1,2,{"x":null}]},"Response":"ok","Type":0,"Aggregated":true,"Data":[],"TimeTo":2,"TimeFrom":1,"More":"later"}"#;
    let r = decode_histo_response(data.as_bytes()).unwrap();
    assert_eq!(r.response, b"ok".to_vec());
}

#[test]
fn status_code_at_limit_is_accepted() {
    let data = r#"{"Response":"ok","Type":18446744073709551615,"Aggregated":true,"Data":[],"TimeTo":2,"TimeFrom":1}"#;
    let r = decode_histo_response(data.as_bytes()).unwrap();
    assert_eq!(r.response_type, u64::MAX);
}

#[test]
fn status_code_beyond_limit_is_rejected() {
    let data = r#"{"Response":"ok","Type":18446744073709551616,"Aggregated":true,"Data":[],"TimeTo":2,"TimeFrom":1}"#;
    assert!(decode_histo_response(data.as_bytes()).is_err());
}

#[test]
fn leading_zero_is_rejected() {
    let data = r#"{"Response":"ok","Type":007,"Aggregated":true,"Data":[],"TimeTo":2,"TimeFrom":1}"#;
    assert!(decode_histo_response(data.as_bytes()).is_err());
}

#[test]
fn bad_number_token_is_rejected() {
    let data = r#"{"Response":"ok","Type":0,"Aggregated":true,"Data":[{"time":1,"high":1.,"low":1,"open":1,"volumefrom":1,"volumeto":1,"close":1}],"TimeTo":2,"TimeFrom":1}"#;
    assert!(decode_histo_response(data.as_bytes()).is_err());
}

#[test]
fn exponent_numbers_are_kept_verbatim() {
    let data = r#"{"Response":"ok","Type":0,"Aggregated":true,"Data":[{"time":1,"high":1.5e-3,"low":-2E+10,"open":0.25,"volumefrom":1e2,"volumeto":0,"close":3}],"TimeTo":2,"TimeFrom":1}"#;
    let r = decode_histo_response(data.as_bytes()).unwrap();
    assert_eq!(r.data[0].high, b"1.5e-3".to_vec());
    assert_eq!(r.data[0].low, b"-2E+10".to_vec());
    assert_eq!(r.data[0].volumefrom, b"1e2".to_vec());
}

#[test]
fn escaped_string_is_rejected() {
    let data = r#"{"Response":"Suc\ncess","Type":0,"Aggregated":true,"Data":[],"TimeTo":2,"TimeFrom":1}"#;
    assert!(decode_histo_response(data.as_bytes()).is_err());
}

#[test]
fn non_object_payload_is_rejected() {
    assert!(decode_histo_response(b"[1,2,3]").is_err());
    assert!(decode_histo_response(b"").is_err());
    assert!(decode_histo_response(b"   ").is_err());
    assert!(decode_histo_response(b"null").is_err());
}

#[test]
fn decode_encode_round_trip() {
    let r = decode_histo_response(SAMPLE.as_bytes()).unwrap();
    let encoded = encode_histo_response(&r);
    let r2 = decode_histo_response(&encoded).unwrap();
    assert_eq!(r, r2);
}

#[test]
fn canonical_encoding_is_exact() {
    let data = r#"{"Response":"ok","Type":0,"Aggregated":true,"Data":[],"TimeTo":2,"TimeFrom":1}"#;
    let r = decode_histo_response(data.as_bytes()).unwrap();
    assert_eq!(encode_histo_response(&r), data.as_bytes().to_vec());
}
