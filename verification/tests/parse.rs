use browsing_linkage::calendar::hour_and_weekday;
use browsing_linkage::cli::{
    AlignmentScope, AlignmentStrategy, Approach, Config, Rate, ScoringScheme,
};
use browsing_linkage::frequency::metrics::DistanceMetric;
use browsing_linkage::parse::{
    encode_records, is_well_formed, layout_population, parse_to_frequency, parse_to_sequence,
    DataFields, Record,
};
use browsing_linkage::segmentation::{is_rate_exceeded, segment};

fn config() -> Config {
    Config {
        delay_limit: 10,
        fields: vec![DataFields::Category],
        max_trace_len: 3,
        min_trace_len: 2,
        max_trace_duration: 100,
        max_rate: None,
        min_num_traces: 1,
        user_sample_size: 10,
        trace_sample_size: 0,
        target_trace_sample_size: 1,
        metric: DistanceMetric::Euclidean,
        path: String::new(),
        path_to_map: String::new(),
        seed: 0,
        typical: false,
        dependent: false,
        multiple: false,
        strategy: AlignmentStrategy::NeedlemanWunsch,
        scoring_matrix: ScoringScheme { equal: 1, align: -1, insert: -1, delete: -1 },
        approach: Approach::Frequency,
        scope: AlignmentScope::Global,
    }
}

fn record(user: &str, timestamp: u64, url: &str) -> Record {
    Record {
        user_id: user.to_string(),
        timestamp,
        url: url.to_string(),
        category: format!("cat-{}", url),
        active_seconds: 1,
        domain: format!("dom-{}", url),
        gender: format!("g-{}", user),
        age: format!("age-{}", user),
    }
}

fn stream() -> Vec<Record> {
    vec![
        record("a", 0, "x"),
        record("a", 5, "y"),
        record("a", 8, "x"),
        record("a", 9, "z"),
        record("a", 30, "y"),
        record("a", 35, "y"),
        record("b", 100, "x"),
        record("c", 7200, "w"),
        record("c", 7201, "x"),
        record("c", 7260, "w"),
    ]
}

#[test]
fn calendar_of_the_epoch_is_thursday_midnight() {
    assert_eq!(hour_and_weekday(0), (0, 3));
    assert_eq!(hour_and_weekday(3599), (0, 3));
    assert_eq!(hour_and_weekday(3600), (1, 3));
    assert_eq!(hour_and_weekday(86_399), (23, 3));
    assert_eq!(hour_and_weekday(86_400), (0, 4));
}

#[test]
fn calendar_of_a_known_date() {
    // 2015-05-15 00:00:00 UTC was a Friday.
    assert_eq!(hour_and_weekday(1_431_648_000), (0, 4));
    assert_eq!(hour_and_weekday(1_431_648_000 + 13 * 3600 + 59), (13, 4));
    // Three days later it was Monday.
    assert_eq!(hour_and_weekday(1_431_648_000 + 3 * 86_400), (0, 0));
    // The last second of the year 9999 was on a Friday.
    assert_eq!(hour_and_weekday(253_402_300_799), (23, 4));
}

#[test]
fn segment_cuts_at_the_length_and_at_the_gap() {
    let records = stream();
    assert_eq!(segment(&records, 0, 6, &config()), vec![(0, 3), (4, 6)]);
    assert_eq!(segment(&records, 6, 7, &config()), Vec::new());
    assert_eq!(segment(&records, 7, 10, &config()), vec![(7, 9)]);
    assert_eq!(segment(&records, 3, 3, &config()), Vec::new());
}

#[test]
fn segment_keeps_a_gap_of_exactly_the_delay_limit() {
    let records = vec![record("a", 0, "x"), record("a", 10, "x"), record("a", 21, "x")];
    assert_eq!(segment(&records, 0, 3, &config()), vec![(0, 2)]);
}

#[test]
fn segment_drops_what_lasts_too_long() {
    let records = vec![record("a", 0, "x"), record("a", 40, "x"), record("a", 80, "x")];
    let mut rules = config();
    rules.delay_limit = 100;
    rules.max_trace_duration = 50;
    assert_eq!(segment(&records, 0, 3, &rules), Vec::new());
    rules.max_trace_duration = 80;
    assert_eq!(segment(&records, 0, 3, &rules), vec![(0, 3)]);
}

#[test]
fn segment_drops_what_is_too_fast() {
    let records = vec![
        record("a", 0, "x"),
        record("a", 1, "x"),
        record("a", 2, "x"),
        record("a", 50, "x"),
        record("a", 60, "x"),
        record("a", 100, "x"),
        record("a", 100, "x"),
    ];
    let mut rules = config();
    rules.max_rate = Some(Rate { events: 1, seconds: 2 });
    // 3 events in 2 seconds are too fast, 2 events in 10 seconds are not, and
    // 2 events in no time at all are.
    assert_eq!(segment(&records, 0, 7, &rules), vec![(3, 5)]);
    rules.max_rate = None;
    assert_eq!(segment(&records, 0, 7, &rules), vec![(0, 3), (3, 5), (5, 7)]);
}

#[test]
fn rate_is_compared_exactly() {
    let half = Some(Rate { events: 1, seconds: 2 });
    assert!(!is_rate_exceeded(5, 10, half));
    assert!(is_rate_exceeded(6, 10, half));
    assert!(is_rate_exceeded(1, 0, half));
    assert!(!is_rate_exceeded(1_000_000, 0, None));
    assert!(!is_rate_exceeded(usize::MAX, 1, Some(Rate { events: u64::MAX, seconds: 1 })));
}

#[test]
fn segment_with_a_maximum_length_of_zero_makes_traces_of_one_event() {
    let records = vec![record("a", 0, "x"), record("a", 1, "x")];
    let mut rules = config();
    rules.max_trace_len = 0;
    rules.min_trace_len = 1;
    assert_eq!(segment(&records, 0, 2, &rules), vec![(0, 1), (1, 2)]);
}

#[test]
fn layout_numbers_users_in_order_and_drops_those_with_too_few_traces() {
    let records = stream();
    assert_eq!(
        layout_population(&records, &config()),
        vec![(0, vec![(0, 3), (4, 6)]), (2, vec![(7, 9)])]
    );
    let mut rules = config();
    rules.min_num_traces = 2;
    assert_eq!(layout_population(&records, &rules), vec![(0, vec![(0, 3), (4, 6)])]);
    rules.min_num_traces = 0;
    assert_eq!(
        layout_population(&records, &rules),
        vec![(0, vec![(0, 3), (4, 6)]), (1, vec![]), (2, vec![(7, 9)])]
    );
    assert!(layout_population(&Vec::new(), &config()).is_empty());
}

#[test]
fn frequency_traces_summarize_their_events() {
    let population = parse_to_frequency(&stream(), &config());
    assert_eq!(population.len(), 2);
    assert_eq!(population[0].0, 0);
    assert_eq!(population[1].0, 2);
    assert_eq!(population[0].1.len(), 2);
    assert_eq!(population[1].1.len(), 1);

    let first = &population[0].1[0];
    assert_eq!(first.url.len(), 2);
    assert_eq!(first.url.key(0), "x");
    assert_eq!(first.url.count_at(0), 2);
    assert_eq!(first.url.key(1), "y");
    assert_eq!(first.url.count_at(1), 1);
    assert_eq!(first.domain.count(&"dom-x".to_string()), 2);
    assert_eq!(first.category.count(&"cat-y".to_string()), 1);
    assert_eq!(first.age, "age-a");
    assert_eq!(first.gender, "g-a");
    assert_eq!(first.start_time, 0);
    assert_eq!(first.end_time, 8);
    assert_eq!(first.hour.len(), 24);
    assert_eq!(first.day.len(), 7);
    assert_eq!(first.hour[0], 3);
    assert_eq!(first.hour.iter().sum::<u32>(), 3);
    assert_eq!(first.day[3], 3);
    assert_eq!(first.day.iter().sum::<u32>(), 3);

    let second = &population[0].1[1];
    assert_eq!(second.url.len(), 1);
    assert_eq!(second.url.count(&"y".to_string()), 2);
    assert_eq!((second.start_time, second.end_time), (30, 35));

    let third = &population[1].1[0];
    assert_eq!(third.url.key(0), "w");
    assert_eq!(third.url.key(1), "x");
    assert_eq!(third.hour[2], 2);
    assert_eq!(third.age, "age-c");
}

#[test]
fn frequency_traces_meet_the_rules() {
    let mut records = Vec::new();
    for user in 0..5u64 {
        let mut now = 1_000_000 * user;
        for k in 0..60u64 {
            now += (k * 7 + user * 3) % 23;
            records.push(record(&format!("u{}", user), now, &format!("page{}", k % 4)));
        }
    }
    let mut rules = config();
    rules.delay_limit = 15;
    rules.max_trace_len = 6;
    rules.min_trace_len = 2;
    rules.max_trace_duration = 40;
    rules.max_rate = Some(Rate { events: 1, seconds: 3 });
    rules.min_num_traces = 2;
    let population = parse_to_frequency(&records, &rules);
    assert!(!population.is_empty());
    for (_, traces) in population.iter() {
        assert!(traces.len() >= rules.min_num_traces);
        for trace in traces.iter() {
            let length: u32 = trace.hour.iter().sum();
            let counted: u32 = (0..trace.url.len()).map(|i| trace.url.count_at(i)).sum();
            assert_eq!(length, counted);
            assert!(length as usize >= rules.min_trace_len);
            assert!(length as usize <= rules.max_trace_len);
            let duration = trace.end_time - trace.start_time;
            assert!(duration <= rules.max_trace_duration);
            assert!(3 * length as u64 <= duration);
        }
    }
}

#[test]
fn records_get_the_codes_of_their_values() {
    let codes = encode_records(&stream());
    let urls: Vec<u32> = codes.iter().map(|code| code.0).collect();
    // x y x z y y x w x w
    assert_eq!(urls, vec![0, 1, 0, 2, 1, 1, 0, 3, 0, 3]);
    let domains: Vec<u32> = codes.iter().map(|code| code.1).collect();
    assert_eq!(domains, urls);
    let categories: Vec<u32> = codes.iter().map(|code| code.2).collect();
    assert_eq!(categories, urls);
}

#[test]
fn sequence_traces_hold_codes_in_the_order_of_events() {
    let population = parse_to_sequence(&stream(), &config());
    assert_eq!(population.len(), 2);
    assert_eq!(population[0].0, 0);
    assert_eq!(population[1].0, 2);
    let first = &population[0].1[0];
    assert_eq!(first.url, vec![0, 1, 0]);
    assert_eq!(first.domain, vec![0, 1, 0]);
    assert_eq!(first.category, vec![0, 1, 0]);
    assert_eq!(first.hour, vec![0, 0, 0]);
    assert_eq!(first.day, 3);
    assert_eq!((first.start_time, first.end_time), (0, 8));
    assert_eq!(first.age, "age-a");
    assert_eq!(first.gender, "g-a");
    let second = &population[0].1[1];
    assert_eq!(second.url, vec![1, 1]);
    let third = &population[1].1[0];
    assert_eq!(third.url, vec![3, 0]);
    assert_eq!(third.hour, vec![2, 2]);
    assert_eq!(third.gender, "g-c");
}

#[test]
fn field_names_are_read_in_any_case() {
    assert_eq!(DataFields::from_name("url"), Some(DataFields::Url));
    assert_eq!(DataFields::from_name("URL"), Some(DataFields::Url));
    assert_eq!(DataFields::from_name("Domain"), Some(DataFields::Domain));
    assert_eq!(DataFields::from_name("age"), Some(DataFields::Age));
    assert_eq!(DataFields::from_name("category"), Some(DataFields::Category));
    assert_eq!(DataFields::from_name("day"), Some(DataFields::Day));
    assert_eq!(DataFields::from_name("hour"), Some(DataFields::Hour));
    assert_eq!(DataFields::from_name("gender"), Some(DataFields::Gender));
    assert_eq!(DataFields::from_name("Active_Seconds"), Some(DataFields::ActiveSeconds));
    assert_eq!(DataFields::from_name("rate"), None);
    assert_eq!(DataFields::from_name(""), None);
    assert_eq!(DataFields::from_lowercase("URL"), None);
    assert_eq!(DataFields::from_lowercase("url"), Some(DataFields::Url));
    assert_eq!("HOUR".parse::<DataFields>(), Ok(DataFields::Hour));
    assert!("minute".parse::<DataFields>().is_err());
}

#[test]
fn stream_is_well_formed_or_not() {
    assert!(is_well_formed(&stream()));
    assert!(is_well_formed(&Vec::new()));

    // The timestamps of one user must not decrease; those of two users may.
    let mut back = stream();
    back[2].timestamp = 4;
    assert!(!is_well_formed(&back));
    let mut other = stream();
    other[6].timestamp = 0;
    assert!(is_well_formed(&other));
    let mut same = stream();
    same[1].timestamp = 0;
    assert!(is_well_formed(&same));

    // The last second of the year 9999 is the last that the calendar knows.
    let mut late = stream();
    late[9].timestamp = 253_402_300_799;
    assert!(is_well_formed(&late));
    late[9].timestamp = 253_402_300_800;
    assert!(!is_well_formed(&late));
}

#[test]
fn users_of_a_population_have_numbers_of_their_own() {
    let population = parse_to_frequency(&stream(), &config());
    for (p, (user, _)) in population.iter().enumerate() {
        for (other, _) in population[..p].iter() {
            assert!(other < user);
        }
    }
    let population = parse_to_sequence(&stream(), &config());
    for (p, (user, _)) in population.iter().enumerate() {
        for (other, _) in population[..p].iter() {
            assert!(other < user);
        }
    }
}

#[test]
fn field_is_the_one_that_its_name_names() {
    let fields = [
        DataFields::Url,
        DataFields::Domain,
        DataFields::Gender,
        DataFields::Age,
        DataFields::ActiveSeconds,
        DataFields::Category,
        DataFields::Day,
        DataFields::Hour,
    ];
    for field in fields {
        assert_eq!(DataFields::from_name(&field.name()), Some(field));
        assert_eq!(DataFields::from_lowercase(&field.name()), Some(field));
    }
    assert_eq!(DataFields::ActiveSeconds.name(), "active_seconds");
    assert_eq!(DataFields::Url.name(), "url");
}
