use cryptoracle::errors::ErrorKind;
use cryptoracle::errors::FetchError;
use cryptoracle::errors::LaunchStage;
use cryptoracle::fetch::build_histo_uri;
use cryptoracle::fetch::complete_fetch;
use cryptoracle::fetch::FetchParams;
use cryptoracle::fetch::TransportEvent;
use cryptoracle::model::Configuration;
use cryptoracle::model::Currency;
use cryptoracle::model::Secrets;
use cryptoracle::render_dump;
use cryptoracle::DataSet;

fn params(timeout_secs: u64, time_step: u64, time_points: u64) -> FetchParams {
    FetchParams {
        fsym: Currency::Bitcoin(String::from("BTC")),
        tsym: Currency::Ethereum(String::from("ETH")),
        timeout_secs,
        time_step,
        time_points,
    }
}

const BODY: &str = r#"{"Response":"Success","Type":100,"Aggregated":true,"Data":[
        {"time":1,"high":2.5,"low":1.5,"open":2,"volumefrom":10,"volumeto":20,"close":2.25},
        {"time":2,"high":2.6,"low":1.6,"open":2,"volumefrom":11,"volumeto":21,"close":2.26},
        {"time":3,"high":2.7,"low":1.7,"open":2,"volumefrom":12,"volumeto":22,"close":2.27},
        {"time":4,"high":2.8,"low":1.8,"open":2,"volumefrom":13,"volumeto":23,"close":2.28},
        {"time":5,"high":2.9,"low":1.9,"open":2,"volumefrom":14,"volumeto":24,"close":2.29}
        ],"TimeTo":5,"TimeFrom":1}"#;

#[test]
fn uri_is_exact() {
    let u = build_histo_uri(&params(5, 60, 120)).unwrap();
    assert_eq!(
        u,
        b"https://min-api.cryptocompare.com/data/histominute?fsym=BTC&tsym=ETH&limit=120&aggregate=60".to_vec()
    );
}

#[test]
fn uri_largest_counts() {
    let u = build_histo_uri(&params(1, u64::MAX, 1)).unwrap();
    assert_eq!(
        u,
        b"https://min-api.cryptocompare.com/data/histominute?fsym=BTC&tsym=ETH&limit=1&aggregate=18446744073709551615".to_vec()
    );
}

#[test]
fn zero_time_points_is_rejected_before_any_transport() {
    assert_eq!(build_histo_uri(&params(5, 60, 0)), Err(FetchError::UriConstruction));
}

#[test]
fn zero_time_step_is_rejected() {
    assert_eq!(build_histo_uri(&params(5, 0, 120)), Err(FetchError::UriConstruction));
}

#[test]
fn zero_timeout_is_rejected() {
    assert_eq!(build_histo_uri(&params(0, 60, 120)), Err(FetchError::UriConstruction));
}

#[test]
fn bad_symbol_is_rejected() {
    let p = FetchParams {
        fsym: Currency::Bitcoin(String::from("BT C")),
        tsym: Currency::Ethereum(String::from("ETH")),
        timeout_secs: 5,
        time_step: 60,
        time_points: 120,
    };
    assert_eq!(build_histo_uri(&p), Err(FetchError::UriConstruction));
}

#[test]
fn empty_symbol_is_rejected() {
    let p = FetchParams {
        fsym: Currency::Bitcoin(String::from("BTC")),
        tsym: Currency::Ethereum(String::new()),
        timeout_secs: 5,
        time_step: 60,
        time_points: 120,
    };
    assert_eq!(build_histo_uri(&p), Err(FetchError::UriConstruction));
}

#[test]
fn timer_first_is_always_timeout() {
    assert_eq!(complete_fetch(TransportEvent::TimedOut), Err(FetchError::Timeout));
}

#[test]
fn transport_failure_keeps_its_message() {
    let r = complete_fetch(TransportEvent::Failed(String::from("connection refused")));
    assert_eq!(r, Err(FetchError::Transport(String::from("connection refused"))));
}

#[test]
fn completed_body_decodes_to_requested_sample_count() {
    let time_points = 5;
    let r = complete_fetch(TransportEvent::Completed(BODY.as_bytes().to_vec())).unwrap();
    assert_eq!(r.data.len(), time_points);
    assert_eq!(r.response, b"Success".to_vec());
}

#[test]
fn completed_malformed_body_is_decode_error() {
    let r = complete_fetch(TransportEvent::Completed(b"{\"Data\":\"oops\"}".to_vec()));
    assert_eq!(r, Err(FetchError::Decode));
}

#[test]
fn dump_lines_are_exact() {
    let r = complete_fetch(TransportEvent::Completed(BODY.as_bytes().to_vec())).unwrap();
    let dump = render_dump(&r.data);
    let text = String::from_utf8(dump).unwrap();
    let expected = "1 1.5 2.5\n2 1.6 2.6\n3 1.7 2.7\n4 1.8 2.8\n5 1.9 2.9\n";
    assert_eq!(text, expected);
}

#[test]
fn dataset_keeps_response_fields() {
    let r = complete_fetch(TransportEvent::Completed(BODY.as_bytes().to_vec())).unwrap();
    let d = DataSet::from_response(String::from("dataset_btc_eth_5d"), r);
    assert_eq!(d.name, "dataset_btc_eth_5d");
    assert_eq!(d.data.len(), 5);
    assert_eq!(d.time_to, 5);
    assert_eq!(d.time_from, 1);
}

#[test]
fn ticker_is_the_carried_symbol() {
    assert_eq!(Currency::Bitcoin(String::from("BTC")).ticker(), "BTC");
    assert_eq!(Currency::Ethereum(String::from("ETH")).ticker(), "ETH");
}

#[test]
fn configuration_keeps_its_address() {
    let c = Configuration::new(String::from("localhost:27017"));
    assert_eq!(c.mongodb_addr(), "localhost:27017");
}

#[test]
fn secrets_keep_their_token() {
    let s = Secrets::new(String::from("SECRET-REDACTED"));
    assert_eq!(s.bittrex_token(), "SECRET-REDACTED");
}

#[test]
fn launch_stage_maps_to_launch_error() {
    let e = ErrorKind::from(LaunchStage::ConfigParse);
    assert_eq!(e, ErrorKind::Launch(LaunchStage::ConfigParse));
}

#[test]
fn it_works() {
}
