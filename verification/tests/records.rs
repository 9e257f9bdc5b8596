use bagheera::classification::{split_record, ClassificationOutput, Record};
use bagheera::errors::Error;
use bagheera::utils::NoNaN;

fn record(line: &str) -> Record<NoNaN<u64>> {
    let fields = split_record(line);
    let scores = fields[1..]
        .iter()
        .map(|text| text.parse::<f64>().ok().and_then(|x| NoNaN::new(x.to_bits())))
        .collect();
    Record { key: fields[0].clone(), scores }
}

fn records(lines: &[&str]) -> Vec<Record<NoNaN<u64>>> {
    lines.iter().map(|line| record(line)).collect()
}

fn numbers(vector: &Vec<NoNaN<u64>>) -> Vec<f64> {
    vector.iter().map(|x| f64::from_bits(x.value())).collect()
}

#[test]
fn split_record_cuts_at_commas() {
    assert_eq!(split_record("a,1,2"), vec!["a", "1", "2"]);
    assert_eq!(split_record("img.png,0.25,0.75,1e-3"), vec!["img.png", "0.25", "0.75", "1e-3"]);
    assert_eq!(split_record("lonely"), vec!["lonely"]);
}

#[test]
fn split_record_trims_each_field() {
    assert_eq!(split_record(" a , 1.5 ,\t2 "), vec!["a", "1.5", "2"]);
    assert_eq!(split_record("a b ,  c\td\r\n"), vec!["a b", "c\td"]);
    assert_eq!(split_record("\tkey\t"), vec!["key"]);
}

#[test]
fn split_record_keeps_empty_fields() {
    assert_eq!(split_record(""), vec![""]);
    assert_eq!(split_record("   "), vec![""]);
    assert_eq!(split_record(","), vec!["", ""]);
    assert_eq!(split_record("a,,b"), vec!["a", "", "b"]);
    assert_eq!(split_record("a,b,"), vec!["a", "b", ""]);
    assert_eq!(split_record(" , ,"), vec!["", "", ""]);
}

#[test]
fn split_record_takes_any_characters() {
    assert_eq!(split_record("bäume/ñ.jpg, 1 ,2"), vec!["bäume/ñ.jpg", "1", "2"]);
    assert_eq!(split_record("日本,語"), vec!["日本", "語"]);
}

#[test]
fn well_formed_source_is_loaded_whole() {
    let mut store = ClassificationOutput::<u8, NoNaN<u64>>::new(3u8);
    let source = records(&["a.jpg,0.1,0.2,0.7", "b.jpg, 1, 0, -0.5 ", "c.jpg,1e3,2.5,3"]);
    store.load_records("scores.csv", &source).unwrap();
    assert_eq!(store.num_images(), 3);
    assert_eq!(numbers(store.confidence_for_image("a.jpg").unwrap()), vec![0.1, 0.2, 0.7]);
    assert_eq!(numbers(store.confidence_for_image("b.jpg").unwrap()), vec![1.0, 0.0, -0.5]);
    assert_eq!(numbers(store.confidence_for_image("c.jpg").unwrap()), vec![1000.0, 2.5, 3.0]);
    assert_eq!(store.list_images(), vec!["a.jpg", "b.jpg", "c.jpg"]);
    assert_eq!(store.topk_for_image("a.jpg", 2).unwrap(), vec![2, 1]);
}

#[test]
fn source_without_records_loads_nothing() {
    let mut store = ClassificationOutput::<u8, NoNaN<u64>>::new(3u8);
    store.load_records("empty.csv", &Vec::new()).unwrap();
    assert!(store.is_empty());
}

#[test]
fn record_with_one_score_too_many_fails_the_whole_load() {
    let mut store = ClassificationOutput::<u8, NoNaN<u64>>::new(3u8);
    let source = records(&["a.jpg,0.1,0.2,0.7", "b.jpg,1,0,0,0", "c.jpg,1,2,3"]);
    let error = store.load_records("scores.csv", &source).unwrap_err();
    assert_eq!(error, Error::MalformedRecord { line: 2, source: "scores.csv".to_string() });
    assert!(store.is_empty());
    assert!(!store.image_is_present("a.jpg"));
    assert!(store.confidence_for_image("a.jpg").is_err());
    assert_eq!(store.list_images().len(), 0);
}

#[test]
fn failed_load_leaves_earlier_entries_as_they_were() {
    let mut store = ClassificationOutput::<u8, NoNaN<u64>>::new(2u8);
    store.load_records("first.csv", &records(&["a,1,2", "b,3,4"])).unwrap();
    let error = store
        .load_records("second.csv", &records(&["a,9,9", "c,5,6", "d,7"]))
        .unwrap_err();
    assert_eq!(error, Error::MalformedRecord { line: 3, source: "second.csv".to_string() });
    assert_eq!(store.num_images(), 2);
    assert_eq!(numbers(store.confidence_for_image("a").unwrap()), vec![1.0, 2.0]);
    assert!(!store.image_is_present("c"));
}

#[test]
fn first_malformed_record_is_the_one_reported() {
    let mut store = ClassificationOutput::<u8, NoNaN<u64>>::new(2u8);
    let source = records(&["a,1,2", "b,1", "c,1,2,3", ""]);
    let error = store.load_records("s", &source).unwrap_err();
    assert_eq!(error, Error::MalformedRecord { line: 2, source: "s".to_string() });
    let error = store.load_records("s", &records(&["a", "b,1,2"])).unwrap_err();
    assert_eq!(error, Error::MalformedRecord { line: 1, source: "s".to_string() });
}

#[test]
fn blank_line_fails_the_load() {
    let mut store = ClassificationOutput::<u8, NoNaN<u64>>::new(2u8);
    let error = store.load_records("s.csv", &records(&["a,1,2", "", "b,3,4"])).unwrap_err();
    assert_eq!(error, Error::MalformedRecord { line: 2, source: "s.csv".to_string() });
    let error = store.load_records("s.csv", &records(&["   \t"])).unwrap_err();
    assert_eq!(error, Error::MalformedRecord { line: 1, source: "s.csv".to_string() });
    assert!(store.is_empty());
    let mut no_classes = ClassificationOutput::<u8, NoNaN<u64>>::new(0u8);
    let error = no_classes.load_records("s.csv", &records(&["a", ""])).unwrap_err();
    assert_eq!(error, Error::MalformedRecord { line: 2, source: "s.csv".to_string() });
    no_classes.load_records("s.csv", &records(&["a", "b"])).unwrap();
    assert_eq!(no_classes.num_images(), 2);
}

#[test]
fn score_that_is_not_a_number_fails_the_load() {
    let mut store = ClassificationOutput::<u8, NoNaN<u64>>::new(2u8);
    let error = store.load_records("s.csv", &records(&["a,1,2", "b,3,x"])).unwrap_err();
    assert_eq!(error, Error::MalformedRecord { line: 2, source: "s.csv".to_string() });
    let error = store.load_records("s.csv", &records(&["a,1,"])).unwrap_err();
    assert_eq!(error, Error::MalformedRecord { line: 1, source: "s.csv".to_string() });
    let error = store.load_records("s.csv", &records(&["a,NaN,1"])).unwrap_err();
    assert_eq!(error, Error::MalformedRecord { line: 1, source: "s.csv".to_string() });
    assert!(store.is_empty());
}

#[test]
fn record_without_key_but_with_scores_is_loaded() {
    let mut store = ClassificationOutput::<u8, NoNaN<u64>>::new(2u8);
    store.load_records("s.csv", &records(&[",1,2"])).unwrap();
    assert_eq!(numbers(store.confidence_for_image("").unwrap()), vec![1.0, 2.0]);
}

#[test]
fn repeated_key_keeps_the_last_record() {
    let mut store = ClassificationOutput::<u8, NoNaN<u64>>::new(2u8);
    store.load_records("s.csv", &records(&["a,1,2", "b,3,4", "a,5,6"])).unwrap();
    assert_eq!(store.num_images(), 2);
    assert_eq!(numbers(store.confidence_for_image("a").unwrap()), vec![5.0, 6.0]);
    assert_eq!(numbers(store.confidence_for_image("b").unwrap()), vec![3.0, 4.0]);
}

#[test]
fn records_of_integer_scores_are_loaded() {
    let mut store = ClassificationOutput::<usize, i32>::new(2usize);
    let source = vec![
        Record { key: "a".to_string(), scores: vec![Some(1), Some(-2)] },
        Record { key: "b".to_string(), scores: vec![Some(3), Some(4)] },
    ];
    store.load_records("memory", &source).unwrap();
    assert_eq!(store.confidence_for_image("a").unwrap(), &vec![1, -2]);
    assert_eq!(store.topk_for_image("b", 1).unwrap(), vec![1]);
    let bad = vec![Record { key: "c".to_string(), scores: vec![Some(3), None] }];
    assert_eq!(
        store.load_records("memory", &bad).unwrap_err(),
        Error::MalformedRecord { line: 1, source: "memory".to_string() }
    );
    assert_eq!(store.num_images(), 2);
}
