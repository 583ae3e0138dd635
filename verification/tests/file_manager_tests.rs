use fastfiles::commands::delete_shared_file;
use fastfiles::file_manager::{
    code_alphabet_len, code_from_indices, display_name, generate_code, FileManager,
};

const ALPHABET: &str = "ABCDEFGHJKLMNPQRSTUVWXYZ23456789";

#[test]
fn codes_use_the_alphabet() {
    for _ in 0..200 {
        let c = generate_code().unwrap();
        assert_eq!(c.chars().count(), 4);
        assert!(c.chars().all(|ch| ALPHABET.contains(ch)), "{c}");
    }
}

#[test]
fn add_get_list_remove() {
    let mut fm = FileManager::new();
    assert!(fm.is_empty());
    let f = fm.add_file("a.txt".to_string(), "/tmp/a.txt".to_string(), 11).unwrap();
    assert_eq!(f.file_name, "a.txt");
    assert_eq!(f.file_path, "/tmp/a.txt");
    assert_eq!(f.file_size, 11);
    assert!(!fm.is_empty());
    let got = fm.get_file(&f.code).unwrap();
    assert_eq!(got.code, f.code);
    assert_eq!(got.file_name, "a.txt");
    let g = fm.add_file("b.bin".to_string(), "/tmp/b.bin".to_string(), 7).unwrap();
    assert_ne!(g.code, f.code);
    let list = fm.list_files();
    assert_eq!(list.len(), 2);
    assert!(list.iter().any(|x| x.code == g.code && x.file_name == "b.bin"));
    assert!(fm.remove_file(&g.code));
    assert!(!fm.remove_file(&g.code));
    assert!(fm.get_file(&g.code).is_none());
}

#[test]
fn unknown_code_is_not_found() {
    let mut fm = FileManager::new();
    let f = fm.add_file("a".to_string(), "a".to_string(), 0).unwrap();
    let other = if f.code == "AAAA" { "BBBB" } else { "AAAA" };
    assert!(fm.get_file(other).is_none());
    assert!(fm.get_file("").is_none());
    assert!(!fm.remove_file(other));
}

#[test]
fn delete_reports_missing_file_and_empty_list() {
    let mut fm = FileManager::new();
    assert_eq!(delete_shared_file(&mut fm, "ABCD"), Err("文件不存在".to_string()));
    let a = fm.add_file("a".to_string(), "a".to_string(), 1).unwrap();
    let b = fm.add_file("b".to_string(), "b".to_string(), 2).unwrap();
    assert_eq!(delete_shared_file(&mut fm, &a.code), Ok(false));
    assert_eq!(delete_shared_file(&mut fm, &a.code), Err("文件不存在".to_string()));
    assert_eq!(delete_shared_file(&mut fm, &b.code), Ok(true));
    assert!(fm.is_empty());
}

#[test]
fn codes_are_four_bytes() {
    for _ in 0..50 {
        assert_eq!(generate_code().unwrap().len(), 4);
    }
}

#[test]
fn codes_from_indices() {
    assert_eq!(code_from_indices(0, 0, 0, 0), "AAAA");
    assert_eq!(code_from_indices(7, 8, 13, 31), "HJP9");
    assert_eq!(code_from_indices(23, 24, 12, 22), "Z2NY");
}

#[test]
fn every_share_gets_its_own_code() {
    let mut fm = FileManager::new();
    let mut seen = std::collections::HashSet::new();
    for i in 0..3000u64 {
        let f = fm.add_file(format!("f{i}"), format!("/f{i}"), i).unwrap();
        assert!(seen.insert(f.code.clone()), "code {} given twice", f.code);
    }
    assert_eq!(fm.list_files().len(), 3000);
}

#[test]
fn first_free_code_counts_up() {
    let fm = FileManager::new();
    assert_eq!(fm.first_free_code().unwrap(), "AAAA");
}

#[test]
fn names_fall_back_to_unknown() {
    assert_eq!(display_name(Some("a.txt")), "a.txt");
    assert_eq!(display_name(None), "unknown");
}

#[test]
fn fetched_file_carries_the_code_asked_for() {
    let mut fm = FileManager::new();
    for i in 0..20u64 {
        let f = fm.add_file(format!("n{i}"), format!("/p{i}"), i).unwrap();
        let g = fm.get_file(&f.code).unwrap();
        assert_eq!(g.code, f.code);
        assert_eq!(g.file_size, i);
    }
}

#[test]
fn alphabet_has_32_characters() {
    assert_eq!(code_alphabet_len(), 32);
    assert_eq!(code_alphabet_len(), ALPHABET.chars().count());
}

#[test]
fn picking_a_code_from_draws() {
    let mut fm = FileManager::new();
    let taken = fm.share_under("QRST".to_string(), "a".to_string(), "a".to_string(), 1);
    assert_eq!(taken.code, "QRST");
    let s = |x: &str| Some(x.to_string());
    assert_eq!(fm.pick_code(&vec![s("QRST"), s("WXYZ"), s("ABCD")]), Ok("WXYZ".to_string()));
    assert_eq!(fm.pick_code(&vec![s("QRST"), None, s("ABCD")]), Err(false));
    assert_eq!(fm.pick_code(&vec![None]), Err(false));
    assert_eq!(fm.pick_code(&vec![s("QRST")]), Ok("AAAA".to_string()));
    assert_eq!(fm.pick_code(&vec![]), Ok("AAAA".to_string()));
    fm.share_under("AAAA".to_string(), "b".to_string(), "b".to_string(), 2);
    assert_eq!(fm.pick_code(&vec![s("AAAA"), s("QRST")]), Ok("AAAB".to_string()));
    assert_eq!(fm.get_file("QRST").unwrap().file_name, "a");
    assert_eq!(fm.list_files().len(), 2);
}
