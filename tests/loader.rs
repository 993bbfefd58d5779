use data_loader::{Dataset, IndexQueue, LoaderConfig, LoaderError};

fn draw_all(dataset: &Dataset<i32>, config: &LoaderConfig) -> Vec<Vec<i32>> {
    let mut queue = IndexQueue::new(dataset.len(), config);
    let mut batches = Vec::new();
    while let Some(indices) = queue.take_slice() {
        batches.push(dataset.gather(&indices));
    }
    batches
}

#[test]
fn test_dataloader_nodroplast() {
    let data: Vec<i32> = (0..25).collect();
    let dataset = Dataset::new(data);
    let config = LoaderConfig::new(10, true, 4, false).unwrap();
    let batches = draw_all(&dataset, &config);
    for (i, batch) in batches.iter().enumerate() {
        println!("Batch {}: {:?}", i, batch);
    }
    let sizes: Vec<usize> = batches.iter().map(|b| b.len()).collect();
    assert_eq!(sizes, vec![10, 10, 5]);
    let mut all: Vec<i32> = batches.concat();
    all.sort();
    assert_eq!(all, (0..25).collect::<Vec<i32>>());
}

#[test]
fn test_dataloader_droplast() {
    let data: Vec<i32> = (0..25).collect();
    let dataset = Dataset::new(data);
    let config = LoaderConfig::new(10, true, 4, true).unwrap();
    let batches = draw_all(&dataset, &config);
    for (i, batch) in batches.iter().enumerate() {
        println!("Batch {}: {:?}", i, batch);
    }
    let sizes: Vec<usize> = batches.iter().map(|b| b.len()).collect();
    assert_eq!(sizes, vec![10, 10]);
    let mut all: Vec<i32> = batches.concat();
    all.sort();
    all.dedup();
    assert_eq!(all.len(), 20);
}

#[test]
fn unshuffled_batches_without_drop() {
    let dataset = Dataset::new((0..25).collect::<Vec<i32>>());
    let config = LoaderConfig::new(10, false, 4, false).unwrap();
    let batches = draw_all(&dataset, &config);
    assert_eq!(
        batches,
        vec![
            (0..10).collect::<Vec<i32>>(),
            (10..20).collect::<Vec<i32>>(),
            (20..25).collect::<Vec<i32>>(),
        ]
    );
}

#[test]
fn unshuffled_batches_with_drop() {
    let dataset = Dataset::new((0..25).collect::<Vec<i32>>());
    let config = LoaderConfig::new(10, false, 4, true).unwrap();
    let batches = draw_all(&dataset, &config);
    assert_eq!(
        batches,
        vec![(0..10).collect::<Vec<i32>>(), (10..20).collect::<Vec<i32>>()]
    );
}

#[test]
fn take_all_matches_repeated_takes() {
    let config = LoaderConfig::new(4, false, 1, false).unwrap();
    let mut queue = IndexQueue::new(10, &config);
    let batches = queue.take_all();
    assert_eq!(batches, vec![vec![0, 1, 2, 3], vec![4, 5, 6, 7], vec![8, 9]]);
    assert_eq!(queue.remaining(), 0);
    assert_eq!(queue.take_slice(), None);
}

#[test]
fn exact_multiple_has_no_short_batch() {
    let config = LoaderConfig::new(5, false, 2, false).unwrap();
    let mut queue = IndexQueue::new(10, &config);
    assert_eq!(queue.take_all(), vec![vec![0, 1, 2, 3, 4], vec![5, 6, 7, 8, 9]]);
}

#[test]
fn exhaustion_is_terminal_and_discards_remainder() {
    let config = LoaderConfig::new(4, false, 1, true).unwrap();
    let mut queue = IndexQueue::new(6, &config);
    assert_eq!(queue.take_slice(), Some(vec![0, 1, 2, 3]));
    assert_eq!(queue.remaining(), 2);
    assert_eq!(queue.take_slice(), None);
    assert_eq!(queue.remaining(), 0);
    assert_eq!(queue.take_slice(), None);
}

#[test]
fn empty_dataset_yields_nothing() {
    let config = LoaderConfig::new(3, false, 1, false).unwrap();
    let mut queue = IndexQueue::new(0, &config);
    assert_eq!(queue.take_slice(), None);
    assert!(queue.take_all().is_empty());
}

#[test]
fn batch_larger_than_dataset() {
    let keep = LoaderConfig::new(10, false, 1, false).unwrap();
    assert_eq!(IndexQueue::new(3, &keep).take_all(), vec![vec![0, 1, 2]]);
    let drop = LoaderConfig::new(10, false, 1, true).unwrap();
    assert!(IndexQueue::new(3, &drop).take_all().is_empty());
}

#[test]
fn shuffle_is_a_permutation() {
    let config = LoaderConfig::new(25, true, 1, false).unwrap();
    let mut queue = IndexQueue::new(25, &config);
    let order = queue.take_slice().unwrap();
    let mut sorted = order.clone();
    sorted.sort();
    assert_eq!(sorted, (0..25).collect::<Vec<usize>>());
    assert_ne!(order, (0..25).collect::<Vec<usize>>());
}

#[test]
fn invalid_configuration_is_rejected() {
    assert_eq!(
        LoaderConfig::new(0, false, 4, false),
        Err(LoaderError::InvalidConfiguration)
    );
    assert_eq!(
        LoaderConfig::new(10, false, 0, false),
        Err(LoaderError::InvalidConfiguration)
    );
    let config = LoaderConfig::new(10, true, 4, true).unwrap();
    assert_eq!(config.batch_size, 10);
    assert!(config.shuffle);
    assert_eq!(config.num_workers, 4);
    assert!(config.drop_last);
}

#[test]
fn dataset_access() {
    let dataset = Dataset::new(vec![7, 8, 9]);
    assert_eq!(dataset.len(), 3);
    assert_eq!(*dataset.get(1), 8);
    assert_eq!(dataset.gather(&[2, 0, 2]), vec![9, 7, 9]);
    assert!(dataset.gather(&[]).is_empty());
}
