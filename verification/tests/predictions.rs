use bus_predictions::cache::extrapolate;
use bus_predictions::cache::refreshed_data;
use bus_predictions::cache::Cache;
use bus_predictions::data::BusArrival;
use bus_predictions::data::FeedBody;
use bus_predictions::data::RawPrediction;
use bus_predictions::data::RouteGroup;
use bus_predictions::data::StopEntry;
use bus_predictions::transform::count_skipped;
use bus_predictions::transform::transform;

fn pred(
    rt: &str,
    des: &str,
    stpid: &str,
    vid: &str,
    tmstmp: &str,
    prdtm: &str,
    psgld: &str,
) -> RawPrediction {
    RawPrediction {
        rt: rt.to_string(),
        des: des.to_string(),
        stpid: stpid.to_string(),
        vid: vid.to_string(),
        tmstmp: tmstmp.to_string(),
        prdtm: prdtm.to_string(),
        psgld: psgld.to_string(),
    }
}

fn arrival(bus_id: &str, seconds: i64, capacity: &str) -> BusArrival {
    BusArrival { bus_id: bus_id.to_string(), seconds, capacity: capacity.to_string() }
}

#[test]
fn transform_is_deterministic() {
    let input = vec![
        pred("61A", "Downtown", "4407", "101", "20240101 12:00:00", "20240101 12:05:00", "HALF"),
        pred("61B", "Oakland", "7117", "102", "20240101 12:00:00", "20240101 12:01:40", ""),
    ];
    let first = transform(&input);
    let second = transform(&input);
    assert_eq!(first, second);
}

#[test]
fn grouping_merges_same_stop_route_destination() {
    let input = vec![
        pred("61A", "Downtown", "4407", "101", "20240101 12:00:00", "20240101 12:05:00", ""),
        pred("61A", "Downtown", "4407", "102", "20240101 12:00:00", "20240101 12:02:00", ""),
        pred("61A", "Downtown", "4407", "103", "20240101 12:00:00", "20240101 12:08:00", ""),
    ];
    let out = transform(&input);
    assert_eq!(out.len(), 1);
    assert_eq!(out[0].stop, "4407");
    assert_eq!(out[0].groups.len(), 1);
    assert_eq!(out[0].groups[0].arrivals.len(), 3);
}

#[test]
fn arrivals_are_sorted_ascending() {
    let input = vec![
        pred("61A", "Downtown", "4407", "101", "20240101 12:00:00", "20240101 12:05:00", ""),
        pred("61A", "Downtown", "4407", "102", "20240101 12:00:00", "20240101 12:02:00", ""),
        pred("61A", "Downtown", "4407", "103", "20240101 12:00:00", "20240101 12:08:00", ""),
        pred("61A", "Downtown", "4407", "104", "20240101 12:00:00", "20240101 12:01:00", ""),
    ];
    let out = transform(&input);
    let arrivals = &out[0].groups[0].arrivals;
    for i in 0..arrivals.len() - 1 {
        assert!(arrivals[i].seconds <= arrivals[i + 1].seconds);
    }
    assert_eq!(arrivals[0].seconds, 60);
    assert_eq!(arrivals[3].seconds, 480);
}

#[test]
fn equal_seconds_keep_first_seen_order() {
    let input = vec![
        pred("61A", "Downtown", "4407", "first", "20240101 12:00:00", "20240101 12:05:00", ""),
        pred("61A", "Downtown", "4407", "second", "20240101 12:00:00", "20240101 12:05:00", ""),
    ];
    let out = transform(&input);
    let arrivals = &out[0].groups[0].arrivals;
    assert_eq!(arrivals[0].bus_id, "first");
    assert_eq!(arrivals[1].bus_id, "second");
}

#[test]
fn seconds_may_be_negative_for_late_buses() {
    let input = vec![pred(
        "61A",
        "Downtown",
        "4407",
        "101",
        "20240101 12:05:00",
        "20240101 12:04:00",
        "",
    )];
    let out = transform(&input);
    assert_eq!(out[0].groups[0].arrivals[0].seconds, -60);
}

#[test]
fn bad_timestamp_is_skipped_others_kept() {
    let input = vec![
        pred("61A", "Downtown", "4407", "101", "20240101 12:00:00", "not a time", ""),
        pred("61A", "Downtown", "4407", "102", "20240101 12:00:00", "20240101 12:02:00", ""),
    ];
    let out = transform(&input);
    assert_eq!(out.len(), 1);
    let arrivals = &out[0].groups[0].arrivals;
    assert_eq!(arrivals.len(), 1);
    assert_eq!(arrivals[0].bus_id, "102");
    assert_eq!(count_skipped(&input), 1);
}

#[test]
fn bad_observation_timestamp_is_skipped_too() {
    let input = vec![pred("61A", "Downtown", "4407", "101", "bogus", "20240101 12:02:00", "")];
    let out = transform(&input);
    assert!(out.is_empty());
    assert_eq!(count_skipped(&input), 1);
}

#[test]
fn end_to_end_example() {
    let input = vec![
        pred("61A", "Downtown", "4407", "201", "20240101 09:00:00", "20240101 09:05:00", "FULL"),
        pred("61A", "Downtown", "4407", "202", "20240101 09:00:00", "20240101 09:02:00", "HALF"),
        pred("61B", "Oakland", "4407", "203", "20240101 09:00:00", "20240101 09:10:00", ""),
    ];
    let out = transform(&input);
    assert_eq!(out.len(), 1);
    assert_eq!(out[0].stop, "4407");
    let groups = &out[0].groups;
    assert_eq!(groups.len(), 2);
    assert_eq!(groups[0].route, "61A");
    assert_eq!(groups[0].destination, "Downtown");
    assert_eq!(groups[1].route, "61B");
    assert_eq!(groups[1].destination, "Oakland");
    let seconds: Vec<i64> = groups[0].arrivals.iter().map(|a| a.seconds).collect();
    assert_eq!(seconds, vec![120, 300]);
    assert_eq!(groups[1].arrivals.len(), 1);
    assert_eq!(groups[1].arrivals[0].seconds, 600);
}

fn one_stop_response(seconds: &[i64]) -> Vec<StopEntry> {
    let arrivals: Vec<BusArrival> =
        seconds.iter().enumerate().map(|(i, s)| arrival(&format!("bus{}", i), *s, "")).collect();
    vec![StopEntry {
        stop: "4407".to_string(),
        groups: vec![RouteGroup {
            route: "61A".to_string(),
            destination: "Downtown".to_string(),
            arrivals,
        }],
    }]
}

#[test]
fn extrapolation_floor_leaves_imminent_arrivals() {
    let resp = one_stop_response(&[25, 100]);
    let out = extrapolate(&resp, 10);
    let arrivals = &out[0].groups[0].arrivals;
    assert_eq!(arrivals[0].seconds, 25);
    assert_eq!(arrivals[1].seconds, 90);
}

#[test]
fn extrapolation_floor_boundary() {
    let resp = one_stop_response(&[30, 31]);
    let out = extrapolate(&resp, 10);
    let arrivals = &out[0].groups[0].arrivals;
    assert_eq!(arrivals[0].seconds, 30);
    assert_eq!(arrivals[1].seconds, 21);
}

#[test]
fn extrapolation_by_zero_changes_nothing() {
    let resp = one_stop_response(&[10, 40]);
    let out = extrapolate(&resp, 0);
    assert_eq!(out, resp);
}

#[test]
fn empty_cache_serves_nothing() {
    let cache = Cache::new();
    assert!(cache.try_serve_cached(1000).is_none());
}

#[test]
fn ttl_boundary() {
    let mut cache = Cache::new();
    cache.store(one_stop_response(&[100]), 1000);
    assert!(cache.try_serve_cached(1019).is_some());
    assert!(cache.try_serve_cached(1020).is_none());
    assert!(cache.try_serve_cached(1021).is_none());
}

#[test]
fn served_copy_is_extrapolated() {
    let mut cache = Cache::new();
    cache.store(one_stop_response(&[25, 100]), 1000);
    let served = cache.try_serve_cached(1010).expect("fresh cache must serve");
    let arrivals = &served[0].groups[0].arrivals;
    assert_eq!(arrivals[0].seconds, 25);
    assert_eq!(arrivals[1].seconds, 90);
    let stored = &cache.data[0].groups[0].arrivals;
    assert_eq!(stored[1].seconds, 100);
}

#[test]
fn refresh_transforms_and_stores() {
    let mut cache = Cache::new();
    let body = FeedBody {
        predictions: Some(vec![pred(
            "61A",
            "Downtown",
            "4407",
            "101",
            "20240101 12:00:00",
            "20240101 12:05:00",
            "",
        )]),
        api_error: None,
    };
    let data = refreshed_data(body);
    assert_eq!(data[0].groups[0].arrivals[0].seconds, 300);
    cache.store(data.clone(), 2000);
    assert_eq!(cache.last_update, Some(2000));
    assert_eq!(cache.data, data);
    let again = cache.try_serve_cached(2000).expect("fresh after refresh");
    assert_eq!(again, data);
}

#[test]
fn feed_error_yields_empty_data() {
    let body = FeedBody {
        predictions: Some(vec![pred(
            "61A",
            "Downtown",
            "4407",
            "101",
            "20240101 12:00:00",
            "20240101 12:05:00",
            "",
        )]),
        api_error: Some(vec!["No data found for parameter".to_string()]),
    };
    let data = refreshed_data(body);
    assert!(data.is_empty());
}

#[test]
fn missing_predictions_yield_empty_data() {
    let body = FeedBody { predictions: None, api_error: None };
    let data = refreshed_data(body);
    assert!(data.is_empty());
}

#[test]
fn stops_group_independently() {
    let input = vec![
        pred("61A", "Downtown", "4407", "101", "20240101 12:00:00", "20240101 12:05:00", ""),
        pred("61A", "Downtown", "7117", "102", "20240101 12:00:00", "20240101 12:02:00", ""),
    ];
    let out = transform(&input);
    assert_eq!(out.len(), 2);
    assert_eq!(out[0].stop, "4407");
    assert_eq!(out[1].stop, "7117");
    assert_eq!(out[0].groups[0].arrivals.len(), 1);
    assert_eq!(out[1].groups[0].arrivals.len(), 1);
}
