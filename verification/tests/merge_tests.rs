use m3u8_core::merge::{build_concat_list, index_of_name, output_file, sort_ts_files};

#[test]
fn index_is_read_from_the_file_name() {
    assert_eq!(index_of_name("/out/temp_1/part_42.ts"), 42);
    assert_eq!(index_of_name("part_0.ts"), 0);
    assert_eq!(index_of_name("/a_b/c_d/part_007.ts"), 7);
    assert_eq!(index_of_name("12.ts"), 12);
}

#[test]
fn name_without_index_counts_as_zero() {
    assert_eq!(index_of_name("part_x.ts"), 0);
    assert_eq!(index_of_name("part_12.mp4"), 0);
    assert_eq!(index_of_name("part_.ts"), 0);
    assert_eq!(index_of_name("part_-3.ts"), 0);
    assert_eq!(index_of_name("part_99999999999999999999999.ts"), 0);
    assert_eq!(index_of_name(""), 0);
    assert_eq!(index_of_name("part_5.ts_"), 0);
}

#[test]
fn largest_index_is_read() {
    assert_eq!(index_of_name("part_18446744073709551615.ts"), u64::MAX);
    assert_eq!(index_of_name("part_18446744073709551616.ts"), 0);
}

#[test]
fn files_are_put_in_playlist_order() {
    let mut files: Vec<String> = [2, 0, 1]
        .iter()
        .map(|i| format!("/out/temp_9/part_{}.ts", i))
        .collect();
    sort_ts_files(&mut files);
    assert_eq!(
        files,
        vec!["/out/temp_9/part_0.ts", "/out/temp_9/part_1.ts", "/out/temp_9/part_2.ts"]
    );
}

#[test]
fn order_is_numeric_and_not_alphabetic() {
    let mut files: Vec<String> =
        [10, 9, 100, 1, 11, 2, 0].iter().map(|i| format!("t/part_{}.ts", i)).collect();
    sort_ts_files(&mut files);
    let indices: Vec<u64> = files.iter().map(|f| index_of_name(f)).collect();
    assert_eq!(indices, vec![0, 1, 2, 9, 10, 11, 100]);
}

#[test]
fn many_files_in_any_order_come_out_ascending() {
    let n = 200u64;
    let mut files: Vec<String> =
        (0..n).map(|i| format!("/t/part_{}.ts", (i * 77 + 13) % n)).collect();
    sort_ts_files(&mut files);
    let expected: Vec<String> = (0..n).map(|i| format!("/t/part_{}.ts", i)).collect();
    assert_eq!(files, expected);
}

#[test]
fn files_of_one_index_keep_their_order() {
    let mut files: Vec<String> =
        vec!["b_1.ts", "x.ts", "a_1.ts", "a_0.ts", "y.ts", "c_1.ts"].into_iter().map(String::from).collect();
    sort_ts_files(&mut files);
    assert_eq!(files, vec!["x.ts", "a_0.ts", "y.ts", "b_1.ts", "a_1.ts", "c_1.ts"]);
}

#[test]
fn empty_and_single_lists_are_left_alone() {
    let mut none: Vec<String> = vec![];
    sort_ts_files(&mut none);
    assert!(none.is_empty());
    let mut one = vec!["part_3.ts".to_string()];
    sort_ts_files(&mut one);
    assert_eq!(one, vec!["part_3.ts"]);
}

#[test]
fn concat_list_names_each_file_on_a_line() {
    let files = vec!["/t/part_0.ts".to_string(), "/t/part_1.ts".to_string()];
    assert_eq!(build_concat_list(&files), "file '/t/part_0.ts'\nfile '/t/part_1.ts'\n");
    assert_eq!(build_concat_list(&vec![]), "");
}

#[test]
fn output_file_has_the_mp4_extension() {
    assert_eq!(output_file("/videos", "lecture 1"), "/videos/lecture 1.mp4");
}
