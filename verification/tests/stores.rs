use std::collections::HashSet;

use bagheera::classification::table::KeyedTable;
use bagheera::classification::{ClassificationDataset, ClassificationOutput};
use bagheera::errors::Error;
use bagheera::utils::{NoNaN, TopK};
use rand::Rng;

#[test]
fn it_works() {
    assert_eq!(2 + 2, 4);
}

#[test]
fn empty_cls_output_u8_f64() {
    let cls_out = ClassificationOutput::<u8, f64>::new(4u8);
    assert_eq!(cls_out.num_classes(), 4u8);
    assert_eq!(cls_out.is_empty(), true);
}

#[test]
fn empty_cls_output_usize_f32() {
    let cls_out = ClassificationOutput::<usize, f32>::new(1000usize);
    assert_eq!(cls_out.num_classes(), 1000usize);
    assert_eq!(cls_out.num_images(), 0usize);
    assert_eq!(cls_out.is_empty(), true);
}

#[test]
fn nonempty_cls_output_u16_f32() {
    let mut cls_out = ClassificationOutput::<u16, f32>::new(30u16);
    let images = vec!["abc.jpg", "cde.jpg", "efg.jpg"];
    for (index, image) in images.iter().enumerate() {
        cls_out.add(*image, vec![index as f32; 30]).unwrap();
    }
    assert_eq!(cls_out.num_images(), 3usize);
}

#[test]
fn test_num_classes() {
    let cls_out = ClassificationOutput::<u128, f64>::new(1000u128);
    assert_eq!(cls_out.num_classes(), 1000u128);
}

#[test]
fn classification_test_image_is_present() {
    let mut cls_out = ClassificationOutput::<u8, f32>::new(30u8);
    let images = vec![
        "india.jpg",
        "germany.png",
        "iran.jpg",
        "canada.png",
        "japan.jpg",
    ];
    for img in images {
        let v = vec![1f32; 30];
        cls_out.add(img, v).unwrap();
    }
    assert_eq!(cls_out.image_is_present("australia.jpg"), false);
}

#[test]
fn classification_test_list_images() {
    let mut cls_out = ClassificationOutput::<u8, f32>::new(30u8);
    let mut images = vec![
        "india.jpg",
        "germany.png",
        "iran.jpg",
        "canada.png",
        "japan.jpg",
    ];
    images.sort();
    for img in &images {
        let v = vec![1f32; 30];
        cls_out.add(img, v).unwrap();
    }
    let list_of_images = cls_out.list_images();
    let mut lhs = HashSet::<&str>::with_capacity(list_of_images.len());
    for item in list_of_images {
        lhs.insert(item);
    }

    let mut rhs = HashSet::<&str>::with_capacity(images.len());
    for item in images {
        rhs.insert(item);
    }
    assert_eq!(lhs, rhs);
}

#[test]
fn classification_test_classification_output_is_empty() {
    let cls_out = ClassificationOutput::<u8, f64>::new(20u8);
    assert_eq!(cls_out.is_empty(), true);
}

#[test]
fn classification_test_confidence_for_image() {
    let mut cls_out = ClassificationOutput::<u32, f32>::new(1000u32);
    let rand_iter = rand::thread_rng().gen_range(0usize..500usize);
    let mut test_image = String::new();
    let mut test_vec = Vec::<f32>::new();
    for i in 0usize..500usize {
        let rand_name: String = (0..50).map(|_| rand::random::<u8>() as char).collect();
        let rand_vec = vec![rand::random::<f32>(); 1000usize];
        if i == rand_iter {
            test_vec = rand_vec.clone();
            test_image = rand_name.clone();
        }
        cls_out.add(&rand_name, rand_vec).unwrap();
    }

    let stored = cls_out.confidence_for_image(&test_image).unwrap();
    assert_eq!(stored.len(), test_vec.len());
    for (lhs, rhs) in stored.iter().zip(test_vec.iter()) {
        assert_eq!(*lhs, *rhs);
    }
}

#[test]
fn classification_test_topk_for_image() {
    let mut cls_out = ClassificationOutput::<u32, NoNaN<u32>>::new(1000u32);
    let rand_iter = rand::thread_rng().gen_range(0usize..500usize);
    let mut test_image = String::new();
    for i in 0usize..500usize {
        let rand_name: String = (0..50).map(|_| rand::random::<u8>() as char).collect();
        let rand_vec: Vec<f32>;
        if i == rand_iter {
            test_image = rand_name.clone();
            rand_vec = (0..1000).map(|x| x as f32).collect();
        } else {
            rand_vec = vec![rand::random::<f32>(); 1000usize];
        }
        let confidences: Vec<NoNaN<u32>> = rand_vec
            .iter()
            .map(|x| NoNaN::new(x.to_bits()).unwrap())
            .collect();
        cls_out.add(&rand_name, confidences).unwrap();
    }

    let topk_ind = cls_out.topk_for_image(&test_image, 5usize).unwrap();
    assert_eq!(
        topk_ind,
        vec![999usize, 998usize, 997usize, 996usize, 995usize]
    );
}

#[test]
fn classification_dataset_single_label_empty_u8() {
    let cls_db = ClassificationDataset::new(33u8, false);
    assert_eq!(cls_db.is_multilabel(), false);
    assert_eq!(cls_db.num_classes(), 33u8);
    assert_eq!(cls_db.is_empty(), true);
}

#[test]
fn classification_dataset_single_label_empty_u32() {
    let cls_db = ClassificationDataset::new(10u32, false);
    assert_eq!(cls_db.is_multilabel(), false);
    assert_eq!(cls_db.num_classes(), 10u32);
    assert_eq!(cls_db.is_empty(), true);
}

#[test]
fn classification_dataset_multi_label_empty_u8() {
    let cls_db = ClassificationDataset::new(3u8, true);
    assert_eq!(cls_db.is_multilabel(), true);
    assert_eq!(cls_db.num_classes(), 3u8);
    assert_eq!(cls_db.is_empty(), true);
}

#[test]
fn classification_dataset_add_images() {
    let mut cls_db = ClassificationDataset::new(100u8, false);
    let _num_images = rand::thread_rng().gen::<usize>();
    for _ in 0..100 {
        cls_db
            .add(
                (0..50)
                    .map(|_| rand::random::<u8>() as char)
                    .collect::<String>()
                    .as_str(),
                &vec![rand::thread_rng().gen_range::<u8, _>(0..100)],
            )
            .unwrap();
    }
    assert_eq!(cls_db.num_images(), 100usize);
}

#[test]
fn classification_dataset_num_classes() {
    let cls_db = ClassificationDataset::<u128>::new(2000u128, true);
    assert_eq!(cls_db.num_classes(), 2000u128);
}

#[test]
fn added_vector_is_returned_and_key_is_present() {
    let mut store = ClassificationOutput::<u8, i32>::new(3u8);
    assert!(!store.image_is_present("a.png"));
    store.add("a.png", vec![7, -2, 5]).unwrap();
    assert!(store.image_is_present("a.png"));
    assert_eq!(store.confidence_for_image("a.png").unwrap(), &vec![7, -2, 5]);
    assert_eq!(store.num_images(), 1);
    assert!(!store.is_empty());
}

#[test]
fn vector_of_wrong_width_is_refused_and_keys_stay() {
    let mut store = ClassificationOutput::<u16, u8>::new(3u16);
    store.add("a", vec![1, 2, 3]).unwrap();
    let short = store.add("b", vec![1, 2]).unwrap_err();
    assert_eq!(short, Error::DimensionMismatch { found: 2 });
    let long = store.add("a", vec![1, 2, 3, 4]).unwrap_err();
    assert_eq!(long, Error::DimensionMismatch { found: 4 });
    let empty = store.add("c", vec![]).unwrap_err();
    assert_eq!(empty, Error::DimensionMismatch { found: 0 });
    assert_eq!(store.list_images(), vec!["a"]);
    assert_eq!(store.num_images(), 1);
    assert!(!store.image_is_present("b"));
    assert_eq!(store.confidence_for_image("a").unwrap(), &vec![1, 2, 3]);
}

#[test]
fn no_vector_has_as_many_scores_as_a_huge_number_of_classes() {
    let mut store = ClassificationOutput::<u128, u8>::new(u128::MAX);
    assert_eq!(
        store.add("a", vec![1, 2, 3]).unwrap_err(),
        Error::DimensionMismatch { found: 3 }
    );
    assert!(store.is_empty());
}

#[test]
fn store_of_no_classes_takes_empty_vectors() {
    let mut store = ClassificationOutput::<u8, u8>::new(0u8);
    store.add("a", vec![]).unwrap();
    assert_eq!(store.topk_for_image("a", 0).unwrap(), Vec::<usize>::new());
    assert_eq!(
        store.topk_for_image("a", 1).unwrap_err(),
        Error::InvalidArgument { k: 1, len: 0 }
    );
}

#[test]
fn adding_again_replaces_the_vector() {
    let mut store = ClassificationOutput::<u8, u64>::new(2u8);
    store.add("a", vec![1, 2]).unwrap();
    store.add("b", vec![3, 4]).unwrap();
    store.add("a", vec![5, 6]).unwrap();
    assert_eq!(store.num_images(), 2);
    assert_eq!(store.confidence_for_image("a").unwrap(), &vec![5, 6]);
    assert_eq!(store.confidence_for_image("b").unwrap(), &vec![3, 4]);
    assert_eq!(store.list_images(), vec!["a", "b"]);
}

#[test]
fn lookup_of_absent_key_is_not_found() {
    let mut store = ClassificationOutput::<u8, u8>::new(2u8);
    store.add("a", vec![1, 2]).unwrap();
    assert_eq!(
        store.confidence_for_image("b").unwrap_err(),
        Error::NotFound { key: "b".to_string() }
    );
    assert_eq!(
        store.topk_for_image("b", 1).unwrap_err(),
        Error::NotFound { key: "b".to_string() }
    );
    assert_eq!(
        store.topk_for_image("", 5).unwrap_err(),
        Error::NotFound { key: String::new() }
    );
}

#[test]
fn topk_of_a_sample() {
    let mut store = ClassificationOutput::<u8, i64>::new(5u8);
    store.add("s", vec![10, 30, 20, 50, 40]).unwrap();
    assert_eq!(store.topk_for_image("s", 3).unwrap(), vec![3, 4, 1]);
    assert_eq!(store.topk_for_image("s", 0).unwrap(), Vec::<usize>::new());
    assert_eq!(store.topk_for_image("s", 5).unwrap(), vec![3, 4, 1, 2, 0]);
    assert_eq!(
        store.topk_for_image("s", 6).unwrap_err(),
        Error::InvalidArgument { k: 6, len: 5 }
    );
}

#[test]
fn topk_of_a_sample_returns_distinct_dominating_classes() {
    let scores: Vec<u16> = vec![5, 9, 5, 1, 9, 0, 7, 5];
    let mut store = ClassificationOutput::<usize, u16>::new(scores.len());
    store.add("s", scores.clone()).unwrap();
    for k in 0..=scores.len() {
        let picked = store.topk_for_image("s", k).unwrap();
        assert_eq!(picked.len(), k);
        let distinct: HashSet<usize> = picked.iter().copied().collect();
        assert_eq!(distinct.len(), k);
        for &i in &picked {
            assert!(i < scores.len());
            for j in 0..scores.len() {
                if !distinct.contains(&j) {
                    assert!(scores[i] >= scores[j]);
                }
            }
        }
        assert_eq!(picked, scores.top_k(k).unwrap());
    }
    assert_eq!(store.topk_for_image("s", 8).unwrap(), vec![1, 4, 6, 0, 2, 7, 3, 5]);
}

#[test]
fn single_label_store_takes_one_label_once() {
    let mut store = ClassificationDataset::new(5u8, false);
    store.add("a", &vec![2]).unwrap();
    assert_eq!(store.get_gt("a").unwrap(), &vec![2]);
    assert_eq!(
        store.add("a", &vec![3]).unwrap_err(),
        Error::DuplicateKey { key: "a".to_string() }
    );
    assert_eq!(
        store.add("a", &vec![2, 3]).unwrap_err(),
        Error::DuplicateKey { key: "a".to_string() }
    );
    assert_eq!(
        store.add("a", &vec![]).unwrap_err(),
        Error::DuplicateKey { key: "a".to_string() }
    );
    assert_eq!(store.get_gt("a").unwrap(), &vec![2]);
    assert_eq!(store.num_images(), 1);
}

#[test]
fn single_label_store_refuses_two_labels() {
    let mut store = ClassificationDataset::new(5u8, false);
    assert_eq!(store.add("a", &vec![2, 3]).unwrap_err(), Error::MultiLabelViolation);
    assert!(!store.image_is_present("a"));
    assert!(store.is_empty());
    store.add("a", &vec![2]).unwrap();
    assert_eq!(store.num_images(), 1);
}

#[test]
fn multi_label_store_takes_many_labels() {
    let mut store = ClassificationDataset::new(1000u64, true);
    store.add("foo.jpg", &vec![11u64, 3u64, 440u64]).unwrap();
    store.add("bar.jpg", &vec![]).unwrap();
    assert_eq!(store.num_images(), 2);
    assert_eq!(store.get_gt("foo.jpg").unwrap(), &vec![11u64, 3u64, 440u64]);
    assert_eq!(store.get_gt("bar.jpg").unwrap(), &Vec::<u64>::new());
    assert_eq!(
        store.add("foo.jpg", &vec![1]).unwrap_err(),
        Error::DuplicateKey { key: "foo.jpg".to_string() }
    );
}

#[test]
fn label_store_keeps_a_copy_of_the_labels() {
    let mut store = ClassificationDataset::new(5u16, true);
    let mut labels = vec![1u16, 3u16];
    store.add("hello.jpg", &labels).unwrap();
    labels.push(4);
    assert_eq!(store.get_gt("hello.jpg").unwrap(), &vec![1u16, 3u16]);
}

#[test]
fn label_store_does_not_compare_labels_with_the_number_of_classes() {
    let mut store = ClassificationDataset::new(5u8, false);
    store.add("a", &vec![200]).unwrap();
    assert_eq!(store.get_gt("a").unwrap(), &vec![200]);
}

#[test]
fn label_store_lookup_and_listing() {
    let mut store = ClassificationDataset::new(100u8, false);
    store.add("abc.jpg", &vec![11u8]).unwrap();
    store.add("mango.png", &vec![3u8]).unwrap();
    assert_eq!(store.image_is_present("abc.jpg"), true);
    assert_ne!(store.image_is_present("bar.jpg"), true);
    assert_eq!(
        store.get_gt("bar.jpg").unwrap_err(),
        Error::NotFound { key: "bar.jpg".to_string() }
    );
    let listed: HashSet<&str> = store.list_images().into_iter().collect();
    let expected: HashSet<&str> = ["abc.jpg", "mango.png"].into_iter().collect();
    assert_eq!(listed, expected);
    assert_eq!(store.list_images().len(), 2);
    assert_eq!(store.is_empty(), false);
}

#[test]
fn keyed_table_sets_and_lists() {
    let mut table = KeyedTable::<u8>::new();
    assert_eq!(table.len(), 0);
    assert!(table.keys().is_empty());
    assert!(!table.contains_key("a"));
    assert_eq!(table.get("a"), None);
    table.insert("b".to_string(), 2);
    table.insert("a".to_string(), 1);
    table.insert("b".to_string(), 3);
    assert_eq!(table.len(), 2);
    assert_eq!(table.keys(), vec!["b", "a"]);
    assert_eq!(table.get("a"), Some(&1));
    assert_eq!(table.get("b"), Some(&3));
    assert!(table.contains_key("b"));
    assert!(!table.contains_key("c"));
}
