use sys_tools::file_service::{replace_smallest_file, Folder, LargeFile};

fn file(name: &str, size: u64) -> LargeFile {
    LargeFile { filename: name.to_string(), file_size: size }
}

fn sizes(folder: &Folder) -> Vec<u64> {
    folder.files.iter().map(|f| f.file_size).collect()
}

fn names(folder: &Folder) -> Vec<String> {
    folder.files.iter().map(|f| f.filename.clone()).collect()
}

fn filled(capacity: usize, list: &[u64]) -> Folder {
    let mut folder = Folder::new("Test".to_string(), capacity);
    for (i, size) in list.iter().enumerate() {
        folder.add_file(file(&format!("f{}", i), *size));
    }
    folder
}

#[test]
fn test_replace_smallest_file() {
    let mut vault = vec![
        LargeFile {
            filename: "file1.txt".to_string(),
            file_size: 10,
        },
        LargeFile {
            filename: "file2.txt".to_string(),
            file_size: 5,
        },
        LargeFile {
            filename: "file3.txt".to_string(),
            file_size: 8,
        },
    ];

    let new_file = LargeFile {
        filename: "file4.txt".to_string(),
        file_size: 7,
    };

    replace_smallest_file(new_file, &mut vault);

    assert_eq!(vault.len(), 3);
    assert_eq!(vault[1].filename, "file4.txt");
    assert_eq!(vault[1].file_size, 7);
}

#[test]
fn replace_keeps_the_other_slots() {
    let mut vault = vec![file("file1.txt", 10), file("file2.txt", 5), file("file3.txt", 8)];
    replace_smallest_file(file("file4.txt", 7), &mut vault);
    assert_eq!(vault[0], file("file1.txt", 10));
    assert_eq!(vault[2], file("file3.txt", 8));
}

#[test]
fn replace_takes_the_earliest_of_equal_minima() {
    let mut vault = vec![file("a", 4), file("b", 2), file("c", 2), file("d", 9)];
    replace_smallest_file(file("new", 100), &mut vault);
    assert_eq!(names_of(&vault), vec!["a", "new", "c", "d"]);
}

fn names_of(vault: &[LargeFile]) -> Vec<&str> {
    vault.iter().map(|f| f.filename.as_str()).collect()
}

#[test]
fn replace_in_a_vault_of_one() {
    let mut vault = vec![file("only", 3)];
    replace_smallest_file(file("next", 1), &mut vault);
    assert_eq!(vault, vec![file("next", 1)]);
}

#[test]
fn new_file_holds_name_and_size() {
    let f = LargeFile::new("/var/log/syslog".to_string(), 42);
    assert_eq!(f.filename, "/var/log/syslog");
    assert_eq!(f.file_size, 42);
}

#[test]
fn new_folder_is_empty() {
    let folder = Folder::new("Test".to_string(), 10);
    assert_eq!(folder.name, "Test");
    assert_eq!(folder.folder_size, 10);
    assert!(folder.files.is_empty());
}

#[test]
fn store_holds_every_file_while_there_is_room() {
    let folder = filled(5, &[4, 9, 1]);
    assert_eq!(sizes(&folder), vec![4, 9, 1]);
    assert_eq!(names(&folder), vec!["f0", "f1", "f2"]);
    let full = filled(3, &[4, 9, 1]);
    assert_eq!(sizes(&full), vec![4, 9, 1]);
}

#[test]
fn store_is_exactly_full_once_more_files_came_than_fit() {
    for order in [
        vec![1u64, 2, 3, 4, 5, 6, 7],
        vec![7, 6, 5, 4, 3, 2, 1],
        vec![3, 3, 3, 3, 3, 3, 3],
        vec![5, 1, 7, 2, 6, 3, 4],
    ] {
        let folder = filled(4, &order);
        assert_eq!(folder.files.len(), 4);
    }
}

#[test]
fn eviction_replaces_the_minimum_even_by_a_smaller_file() {
    let mut folder = filled(3, &[10, 5, 8]);
    folder.add_file(file("seven", 7));
    assert_eq!(sizes(&folder), vec![10, 7, 8]);
    folder.add_file(file("one", 1));
    assert_eq!(sizes(&folder), vec![10, 1, 8]);
    assert_eq!(folder.files[1].filename, "one");
    folder.add_file(file("two", 2));
    assert_eq!(sizes(&folder), vec![10, 2, 8]);
}

#[test]
fn store_of_one_always_holds_the_latest() {
    let folder = filled(1, &[9, 3, 5]);
    assert_eq!(sizes(&folder), vec![5]);
    assert_eq!(folder.files[0].filename, "f2");
}

#[test]
fn folder_method_replaces_like_the_free_function() {
    let mut folder = filled(3, &[10, 5, 8]);
    folder.replace_smallest_file(file("file4.txt", 7));
    assert_eq!(sizes(&folder), vec![10, 7, 8]);
    assert_eq!(folder.folder_size, 3);
}

#[test]
fn sort_orders_by_size_largest_first() {
    let mut folder = filled(6, &[3, 9, 1, 7, 7, 2]);
    folder.sort_files();
    assert_eq!(sizes(&folder), vec![9, 7, 7, 3, 2, 1]);
    assert_eq!(folder.name, "Test");
    assert_eq!(folder.folder_size, 6);
}

#[test]
fn sort_keeps_files_of_one_size_in_their_order() {
    let mut folder = filled(6, &[2, 5, 2, 5, 2, 9]);
    folder.sort_files();
    assert_eq!(names(&folder), vec!["f5", "f1", "f3", "f0", "f2", "f4"]);
}

#[test]
fn sort_of_empty_and_single_store() {
    let mut empty = Folder::new("e".to_string(), 3);
    empty.sort_files();
    assert!(empty.files.is_empty());
    let mut one = filled(3, &[4]);
    one.sort_files();
    assert_eq!(sizes(&one), vec![4]);
}

#[test]
fn sort_agrees_with_a_stable_sort_of_the_standard_library() {
    let list = [5u64, 3, 8, 3, 0, 8, 8, 1, 5, 2, 0, 9];
    let mut folder = filled(20, &list);
    let mut expected = folder.files.clone();
    expected.sort_by(|a, b| b.file_size.cmp(&a.file_size));
    folder.sort_files();
    assert_eq!(folder.files, expected);
}

#[test]
fn twelve_files_into_ten_slots_leave_the_ten_largest_sorted() {
    let list: Vec<u64> = (1..=12).collect();
    let mut folder = filled(10, &list);
    assert_eq!(folder.files.len(), 10);
    folder.sort_files();
    assert_eq!(sizes(&folder), vec![12, 11, 10, 9, 8, 7, 6, 5, 4, 3]);
}

#[test]
fn print_files_gives_heading_and_one_block_per_file() {
    let mut folder = Folder::new("Test".to_string(), 10);
    folder.add_file(file("/tmp/a.bin", 120));
    folder.add_file(file("/tmp/b.bin", 0));
    let lines = folder.print_files();
    assert_eq!(
        lines,
        vec![
            "----------- Files in Test -----------\n".to_string(),
            "File Name: /tmp/a.bin\nFile Size in Mb 120\n".to_string(),
            "File Name: /tmp/b.bin\nFile Size in Mb 0\n".to_string(),
        ]
    );
}

#[test]
fn print_files_of_an_empty_store_is_the_heading() {
    let lines = Folder::new("".to_string(), 1).print_files();
    assert_eq!(lines, vec!["----------- Files in  -----------\n".to_string()]);
}

#[test]
fn to_list_copies_the_files_slot_by_slot() {
    let folder = filled(4, &[3, 1, 2]);
    assert_eq!(folder.to_list(), folder.files);
    assert_eq!(Folder::new("e".to_string(), 2).to_list(), Vec::<LargeFile>::new());
}

#[test]
fn files_that_arrive_in_rising_order_leave_the_largest() {
    let list = [1u64, 1, 2, 3, 3, 3, 5, 8, 8, 13];
    for capacity in 1..=12 {
        let folder = filled(capacity, &list);
        let mut got = sizes(&folder);
        got.sort();
        let from = list.len().saturating_sub(capacity);
        assert_eq!(got, list[from..].to_vec());
    }
}

#[test]
fn files_that_arrive_in_falling_order_do_not_leave_the_largest() {
    let list: Vec<u64> = (1..=12).rev().collect();
    let mut folder = filled(10, &list);
    folder.sort_files();
    assert_eq!(sizes(&folder), vec![12, 11, 10, 9, 8, 7, 6, 5, 4, 1]);
}
