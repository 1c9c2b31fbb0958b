use browsing_linkage::evaluation::Regime;
use browsing_linkage::frequency::evaluation::{
    compare_candidate, eval_step, field_of, get_unique_set, place_of, sampled_traces,
};
use browsing_linkage::frequency::maths::add;
use browsing_linkage::frequency::trace::{
    copy_counts, gen_typical_vect_trace, summarize, vectorize_trace, FreqTrace,
};
use browsing_linkage::histogram::Histogram;
use browsing_linkage::parse::{DataFields, Record};
use indexmap::IndexSet;
use std::collections::HashMap;

fn text(s: &str) -> String {
    s.to_string()
}

fn histogram_of(values: &[&str]) -> Histogram {
    let mut histogram = Histogram::new();
    for value in values {
        histogram.record(&text(value));
    }
    histogram
}

fn trace(urls: &[&str], age: &str, gender: &str) -> FreqTrace {
    let domains: Vec<String> = urls.iter().map(|url| format!("d{}", &url[..1])).collect();
    let domain_refs: Vec<&str> = domains.iter().map(|d| d.as_str()).collect();
    let mut hour = vec![0u32; 24];
    hour[9] = urls.len() as u32;
    let mut day = vec![0u32; 7];
    day[1] = urls.len() as u32;
    FreqTrace {
        url: histogram_of(urls),
        domain: histogram_of(&domain_refs),
        category: histogram_of(&vec!["news"; urls.len()]),
        age: text(age),
        gender: text(gender),
        hour,
        day,
        start_time: 100,
        end_time: 200,
    }
}

fn items_of(set: &IndexSet<String>) -> Vec<String> {
    set.iter().cloned().collect()
}

fn sets(target: &FreqTrace, sampled: &Vec<FreqTrace>) -> Vec<IndexSet<String>> {
    vec![
        get_unique_set(target, sampled, DataFields::Url),
        get_unique_set(target, sampled, DataFields::Domain),
        get_unique_set(target, sampled, DataFields::Category),
        get_unique_set(target, sampled, DataFields::Age),
        get_unique_set(target, sampled, DataFields::Gender),
    ]
}

#[test]
fn vocabulary_of_a_comparison_begins_with_the_target() {
    let target = trace(&["b1", "a1", "b1"], "young", "f");
    let sampled = vec![trace(&["c1", "a1"], "old", "f"), trace(&["a2", "c1"], "young", "m")];
    let vocabularies = sets(&target, &sampled);
    assert_eq!(items_of(&vocabularies[0]), vec!["b1", "a1", "c1", "a2"]);
    assert_eq!(items_of(&vocabularies[1]), vec!["db", "da", "dc"]);
    assert_eq!(items_of(&vocabularies[2]), vec!["news"]);
    assert_eq!(items_of(&vocabularies[3]), vec!["young", "old"]);
    assert_eq!(items_of(&vocabularies[4]), vec!["f", "m"]);
}

#[test]
fn vocabulary_is_built_the_same_way_every_time() {
    let target = trace(&["q", "p", "r", "p"], "a", "f");
    let sampled = vec![trace(&["s", "p", "t"], "b", "m"), trace(&["u", "q"], "c", "f")];
    for field in [DataFields::Url, DataFields::Domain, DataFields::Age, DataFields::Gender] {
        let first = get_unique_set(&target, &sampled, field);
        for _ in 0..5 {
            let again = get_unique_set(&target, &sampled, field);
            assert_eq!(items_of(&first), items_of(&again));
        }
    }
    let urls = get_unique_set(&target, &sampled, DataFields::Url);
    assert_eq!(items_of(&urls), vec!["q", "p", "r", "s", "t", "u"]);
}

#[test]
fn vocabulary_of_the_target_alone_holds_its_values() {
    let target = trace(&["m", "n", "m"], "a", "f");
    let urls = get_unique_set(&target, &Vec::new(), DataFields::Url);
    assert_eq!(items_of(&urls), vec!["m", "n"]);
}

#[test]
fn trace_vectors_follow_the_vocabularies() {
    let target = trace(&["b1", "a1", "b1"], "young", "f");
    let sampled = vec![trace(&["c1", "a1"], "old", "m")];
    let v = sets(&target, &sampled);
    let vector = vectorize_trace(&target, &v[0], &v[1], &v[2], &v[3], &v[4]);
    assert_eq!(vector.url, vec![2, 1, 0]);
    assert_eq!(vector.domain, vec![2, 1, 0]);
    assert_eq!(vector.category, vec![3]);
    assert_eq!(vector.age, vec![1, 0]);
    assert_eq!(vector.gender, vec![1, 0]);
    assert_eq!(vector.hour, target.hour);
    assert_eq!(vector.day, target.day);
    let other = vectorize_trace(&sampled[0], &v[0], &v[1], &v[2], &v[3], &v[4]);
    assert_eq!(other.url, vec![0, 1, 1]);
    assert_eq!(other.age, vec![0, 1]);
    assert_eq!(other.gender, vec![0, 1]);
}

#[test]
fn vector_over_own_vocabulary_sums_to_the_number_of_events() {
    let urls = ["a", "b", "a", "c", "a", "b", "d", "a"];
    let target = trace(&urls, "x", "y");
    let v = sets(&target, &Vec::new());
    let vector = vectorize_trace(&target, &v[0], &v[1], &v[2], &v[3], &v[4]);
    assert_eq!(vector.url.iter().sum::<u32>() as usize, urls.len());
    assert_eq!(vector.domain.iter().sum::<u32>() as usize, urls.len());
    assert_eq!(vector.category.iter().sum::<u32>() as usize, urls.len());
    assert_eq!(vector.hour.iter().sum::<u32>() as usize, urls.len());
}

#[test]
fn typical_vectors_are_sums_over_the_traces() {
    let target = trace(&["a"], "t", "f");
    let sampled = vec![
        trace(&["a", "b", "a"], "t", "f"),
        trace(&["b", "c"], "u", "f"),
        trace(&["a"], "t", "m"),
    ];
    let v = sets(&target, &sampled);
    let sums = gen_typical_vect_trace(&sampled, &v[0], &v[1], &v[2], &v[3], &v[4]);
    assert_eq!(sums.url, vec![3, 2, 1]);
    assert_eq!(sums.category, vec![6]);
    assert_eq!(sums.age, vec![2, 1]);
    assert_eq!(sums.gender, vec![2, 1]);
    assert_eq!(sums.hour[9], 6);
    assert_eq!(sums.day[1], 6);
    assert_eq!(sums.hour.iter().sum::<u64>(), 6);
    let none = gen_typical_vect_trace(&Vec::new(), &v[0], &v[1], &v[2], &v[3], &v[4]);
    assert_eq!(none.url, vec![0, 0, 0]);
    assert_eq!(none.hour, vec![0u64; 24]);
}

#[test]
fn sums_and_counts_are_added_place_by_place() {
    assert_eq!(add(vec![1, 2, 3], &vec![10, 0, 5]), vec![11, 2, 8]);
    assert_eq!(add(Vec::new(), &Vec::new()), Vec::<u64>::new());
    assert_eq!(copy_counts(&vec![4, 5]), vec![4, 5]);
}

#[test]
fn candidate_vectors_follow_the_regime() {
    let target = trace(&["a", "b"], "t", "f");
    let sampled = vec![trace(&["a", "c"], "t", "f"), trace(&["d"], "u", "m")];
    let each = compare_candidate(5, &target, &sampled, Regime::Each, 0);
    assert_eq!(each.candidate, 5);
    assert_eq!(each.observed, 2);
    assert_eq!(each.target.url, vec![1, 1, 0, 0]);
    assert_eq!(each.references.len(), 2);
    assert_eq!(each.references[0].url, vec![1, 0, 1, 0]);
    assert_eq!(each.references[1].url, vec![0, 0, 0, 1]);
    assert!(each.typical.is_none());

    let typical = compare_candidate(5, &target, &sampled, Regime::Typical, 0);
    assert!(typical.references.is_empty());
    assert_eq!(typical.observed, 2);
    assert_eq!(typical.typical.unwrap().url, vec![1, 0, 1, 1]);

    let test = compare_candidate(5, &target, &sampled, Regime::Test, 1);
    assert_eq!(test.references.len(), 1);
    assert_eq!(test.references[0].url, vec![0, 0, 0, 1]);
    assert!(test.typical.is_none());
}

#[test]
fn field_picks_the_vector_of_a_trace() {
    let target = trace(&["a", "b"], "t", "f");
    let v = sets(&target, &Vec::new());
    let vector = vectorize_trace(&target, &v[0], &v[1], &v[2], &v[3], &v[4]);
    assert_eq!(field_of(&vector, DataFields::Url), Some(&vector.url));
    assert_eq!(field_of(&vector, DataFields::Domain), Some(&vector.domain));
    assert_eq!(field_of(&vector, DataFields::Category), Some(&vector.category));
    assert_eq!(field_of(&vector, DataFields::Day), Some(&vector.day));
    assert_eq!(field_of(&vector, DataFields::Hour), Some(&vector.hour));
    assert_eq!(field_of(&vector, DataFields::Gender), Some(&vector.gender));
    assert_eq!(field_of(&vector, DataFields::Age), Some(&vector.age));
    assert_eq!(field_of(&vector, DataFields::ActiveSeconds), None);
}

#[test]
fn place_of_an_index_is_its_first_place() {
    assert_eq!(place_of(&vec![4, 2, 4, 7], 4), Some(0));
    assert_eq!(place_of(&vec![4, 2, 4, 7], 7), Some(3));
    assert_eq!(place_of(&vec![4, 2, 4, 7], 5), None);
}

#[test]
fn sampled_traces_are_copies() {
    let traces = vec![trace(&["a"], "t", "f"), trace(&["b", "b"], "u", "m")];
    let sampled = sampled_traces(&traces, &vec![1, 1, 0]);
    assert_eq!(sampled.len(), 3);
    assert_eq!(sampled[0].url.count(&text("b")), 2);
    assert_eq!(sampled[1].age, "u");
    assert_eq!(sampled[2].url.key(0), "a");
    assert_eq!(sampled[2].hour, traces[0].hour);
}

#[test]
fn summary_counts_events() {
    let records: Vec<Record> = (0..5u64)
        .map(|k| Record {
            user_id: text("u"),
            timestamp: 86_400 * 4 + 3600 * k,
            url: format!("page{}", k % 2),
            category: text("c"),
            active_seconds: 0,
            domain: text("d"),
            gender: text("g"),
            age: text("a"),
        })
        .collect();
    let summary = summarize(&records, 1, 4);
    assert_eq!(summary.url.count(&text("page1")), 2);
    assert_eq!(summary.url.count(&text("page0")), 1);
    assert_eq!(summary.url.key(0), "page1");
    assert_eq!(summary.category.count(&text("c")), 3);
    assert_eq!(&summary.hour[..5], &[0, 1, 1, 1, 0]);
    // Four days after a Thursday it is Monday.
    assert_eq!(summary.day, vec![3, 0, 0, 0, 0, 0, 0]);
    assert_eq!((summary.start_time, summary.end_time), (86_400 * 4 + 3600, 86_400 * 4 + 3 * 3600));
}

fn population() -> Vec<(u32, Vec<FreqTrace>)> {
    vec![
        (
            1,
            vec![
                trace(&["a", "b"], "t", "f"),
                trace(&["a", "c"], "t", "f"),
                trace(&["a", "b", "b"], "t", "f"),
            ],
        ),
        (4, vec![trace(&["x"], "u", "m"), trace(&["y", "x"], "u", "m"), trace(&["z"], "u", "m")]),
    ]
}

fn maps() -> (HashMap<u32, Vec<usize>>, HashMap<u32, usize>) {
    let mut samples = HashMap::new();
    samples.insert(1, vec![1, 0]);
    samples.insert(4, vec![0]);
    let mut tests = HashMap::new();
    tests.insert(1, 0);
    tests.insert(4, 0);
    (samples, tests)
}

#[test]
fn attack_builds_vectors_for_every_candidate() {
    let (samples, tests) = maps();
    let vectors = eval_step(Regime::Each, 1, 2, &population(), &samples, &tests);
    assert_eq!(vectors.len(), 2);
    assert_eq!(vectors[0].candidate, 1);
    assert_eq!(vectors[1].candidate, 4);
    // Against the first candidate the vocabulary is a b c.
    assert_eq!(vectors[0].target.url, vec![1, 2, 0]);
    assert_eq!(vectors[0].references.len(), 2);
    assert_eq!(vectors[0].references[0].url, vec![1, 0, 1]);
    assert_eq!(vectors[0].references[1].url, vec![1, 1, 0]);
    // Against the second it is a b x.
    assert_eq!(vectors[1].target.url, vec![1, 2, 0]);
    assert_eq!(vectors[1].references.len(), 1);
    assert_eq!(vectors[1].references[0].url, vec![0, 0, 1]);
    assert_eq!(vectors[1].target.age, vec![1, 0]);
    assert_eq!(vectors[1].references[0].age, vec![0, 1]);
}

#[test]
fn attack_builds_typical_sums_and_test_vectors() {
    let (samples, tests) = maps();
    let typical = eval_step(Regime::Typical, 1, 2, &population(), &samples, &tests);
    assert_eq!(typical[0].observed, 2);
    assert_eq!(typical[0].typical.as_ref().unwrap().url, vec![2, 1, 1]);
    assert!(typical[0].references.is_empty());
    assert_eq!(typical[1].typical.as_ref().unwrap().url, vec![0, 0, 1]);

    let test = eval_step(Regime::Test, 1, 2, &population(), &samples, &tests);
    assert_eq!(test[0].references.len(), 1);
    assert_eq!(test[0].references[0].url, vec![1, 1, 0]);
    assert_eq!(test[1].references[0].url, vec![0, 0, 1]);
}
