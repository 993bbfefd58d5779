use data_loader::gen_rnn_train_data;

#[test]
fn test_gen_rnn_train_data() {
    let data: Vec<usize> = (0..26).collect();

    let train_datas = gen_rnn_train_data(&data[..], 4, 2);

    for (i, batch) in train_datas.iter().enumerate() {
        println!("Batch {}: {:?}", i, batch);
    }
    println!("\n");

    assert_eq!(train_datas[0].feature, vec![0, 1, 2, 3]);
    assert_eq!(train_datas[0].label, vec![1, 2, 3, 4]);
    assert_eq!(train_datas.len(), 11);
    let last = &train_datas[10];
    assert_eq!(last.feature, vec![20, 21, 22, 23]);
    assert_eq!(last.label, vec![21, 22, 23, 24]);
}

#[test]
fn window_count_exact() {
    let data: Vec<i32> = (0..10).collect();
    let pairs = gen_rnn_train_data(&data, 3, 3);
    assert_eq!(pairs.len(), 3);
    assert_eq!(pairs[2].feature, vec![6, 7, 8]);
    assert_eq!(pairs[2].label, vec![7, 8, 9]);
}

#[test]
fn short_inputs_give_no_windows() {
    let empty: Vec<i32> = Vec::new();
    assert!(gen_rnn_train_data(&empty, 4, 2).is_empty());
    let short = vec![1, 2, 3, 4];
    assert!(gen_rnn_train_data(&short, 4, 1).is_empty());
    let just_enough = vec![1, 2, 3, 4, 5];
    let pairs = gen_rnn_train_data(&just_enough, 4, 1);
    assert_eq!(pairs.len(), 1);
    assert_eq!(pairs[0].label, vec![2, 3, 4, 5]);
}

#[test]
fn huge_stride_gives_one_window() {
    let data: Vec<i32> = (0..8).collect();
    let pairs = gen_rnn_train_data(&data, 2, usize::MAX);
    assert_eq!(pairs.len(), 1);
    assert_eq!(pairs[0].feature, vec![0, 1]);
}
