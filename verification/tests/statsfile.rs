use hangman::codec::default_stats_json;
use hangman::codec::parse_stats;
use hangman::codec::render_stats;
use hangman::stats::rate_centi;
use hangman::stats::StatsRecord;

#[test]
fn default_file_is_the_zero_record() {
    let bytes = default_stats_json();
    assert_eq!(bytes, b"{\"won\":0,\"lost\":0,\"average\":0}".to_vec());
    let rec = parse_stats(&bytes).expect("default content parses");
    assert_eq!(rec, StatsRecord::new(0, 0));
    assert_eq!(rec.won, 0);
    assert_eq!(rec.lost, 0);
    assert_eq!(rec.rate_centi, 0);
}

#[test]
fn save_then_load_gives_the_record_back() {
    let samples = [(0, 0), (1, 0), (0, 1), (3, 1), (2, 2), (7, 13), (4294967295, 4294967295)];
    for &(w, l) in samples.iter() {
        let rec = StatsRecord::new(w, l);
        let bytes = render_stats(&rec);
        assert_eq!(parse_stats(&bytes), Some(rec));
    }
}

#[test]
fn render_is_the_documented_shape() {
    let rec = StatsRecord::new(3, 1);
    assert_eq!(rec.rate_centi, 7500);
    let bytes = render_stats(&rec);
    assert_eq!(bytes, b"{\"won\":3,\"lost\":1,\"average\":75.00}".to_vec());
}

#[test]
fn parse_accepts_whitespace_and_fractions() {
    let pretty = b"{\n    \"won\": 2,\n    \"lost\": 2,\n    \"average\": 50.0\n}".to_vec();
    let rec = parse_stats(&pretty).expect("pretty layout parses");
    assert_eq!(rec.won, 2);
    assert_eq!(rec.lost, 2);
    assert_eq!(rec.rate_centi, 5000);

    let tabbed = b"\t{ \"won\"\t: 10 , \"lost\" : 0 , \"average\" : 100 }\r\n".to_vec();
    let rec2 = parse_stats(&tabbed).expect("any whitespace parses");
    assert_eq!(rec2.won, 10);
    assert_eq!(rec2.lost, 0);
}

#[test]
fn parse_rejects_malformed_input() {
    let bad: [&[u8]; 10] = [
        b"",
        b"{}",
        b"{\"won\":0,\"lost\":0}",
        b"{\"won\":,\"lost\":0,\"average\":0}",
        b"{\"won\":0,\"lost\":0,\"average\":1.}",
        b"{\"won\":0,\"lost\":0,\"average\":0",
        b"{\"won\":0,\"lost\":0,\"average\":0}x",
        b"{\"lost\":0,\"won\":0,\"average\":0}",
        b"[\"won\",0]",
        b"{\"won\":-1,\"lost\":0,\"average\":0}",
    ];
    for b in bad.iter() {
        assert_eq!(parse_stats(&b.to_vec()), None);
    }
}

#[test]
fn parse_rejects_counters_too_large() {
    let over = b"{\"won\":4294967296,\"lost\":0,\"average\":0}".to_vec();
    assert_eq!(parse_stats(&over), None);
    let max = b"{\"won\":4294967295,\"lost\":0,\"average\":0}".to_vec();
    assert_eq!(parse_stats(&max).map(|r| r.won), Some(4294967295));
}

#[test]
fn rate_matches_the_formula() {
    assert_eq!(rate_centi(0, 0), 0);
    assert_eq!(rate_centi(1, 0), 10000);
    assert_eq!(rate_centi(0, 1), 0);
    assert_eq!(rate_centi(1, 2), 3333);
    assert_eq!(rate_centi(2, 1), 6666);
    assert_eq!(rate_centi(1, 1), 5000);
}

#[test]
fn rate_recompute_is_idempotent() {
    let mut rec = StatsRecord { won: 5, lost: 3, rate_centi: 1234 };
    rec.recompute();
    assert_eq!(rec.rate_centi, 6250);
    let once = rec;
    rec.recompute();
    assert_eq!(rec, once);
}

#[test]
fn counting_rounds_updates_the_rate() {
    let mut rec = StatsRecord::new(0, 0);
    rec.record_win();
    assert_eq!((rec.won, rec.lost, rec.rate_centi), (1, 0, 10000));
    rec.record_loss();
    assert_eq!((rec.won, rec.lost, rec.rate_centi), (1, 1, 5000));
    rec.record_loss();
    assert_eq!((rec.won, rec.lost, rec.rate_centi), (1, 2, 3333));
}

#[test]
fn ceil_percent_is_what_the_popup_shows() {
    assert_eq!(StatsRecord::new(0, 0).rate_ceil_percent(), 0);
    assert_eq!(StatsRecord::new(1, 2).rate_ceil_percent(), 34);
    assert_eq!(StatsRecord::new(1, 1).rate_ceil_percent(), 50);
    assert_eq!(StatsRecord::new(3, 0).rate_ceil_percent(), 100);
}

#[test]
fn rendered_file_is_real_json() {
    let rec = StatsRecord::new(3, 1);
    let bytes = render_stats(&rec);
    let text = std::str::from_utf8(&bytes).expect("the file is ASCII");
    let v: serde_json::Value = serde_json::from_str(text).expect("a JSON parser accepts it");
    assert_eq!(v.get("won").and_then(|x| x.as_u64()), Some(3));
    assert_eq!(v.get("lost").and_then(|x| x.as_u64()), Some(1));
    assert_eq!(v.get("average").and_then(|x| x.as_f64()), Some(75.0));
}
