use rtop::usage::{number_in, parse_pss_kib, parse_storage, process_mem_mib};

#[test]
fn tables_of_storage() {
    let s = parse_storage("     1B-blocks         Used\n 1000  400\n").unwrap();
    assert_eq!((s.used_bytes, s.total_bytes), (400, 1000));
    let s = parse_storage("head\n1000 4000").unwrap();
    assert_eq!((s.used_bytes, s.total_bytes), (1000, 1000));
    assert!(parse_storage("").is_none());
    assert!(parse_storage("head").is_none());
    assert!(parse_storage("head\n1000\n").is_none());
    assert!(parse_storage("head\n1000 x\n").is_none());
    assert!(parse_storage("head\n-1 5\n").is_none());
}

#[test]
fn memory_of_processes() {
    assert_eq!(parse_pss_kib("Rss: 9 kB\nPss:   2048 kB\nPss: 1 kB\n"), Some(2048));
    assert_eq!(parse_pss_kib("Pss:\nPss: 1 kB\n"), None);
    assert_eq!(parse_pss_kib("Pss: x kB\n"), None);
    assert_eq!(parse_pss_kib("Pss_Anon: 1 kB\n"), None);
    assert_eq!(process_mem_mib(Some(2047), 99), 1);
    assert_eq!(process_mem_mib(None, 3 * 1024 * 1024 + 5), 3);
}

#[test]
fn numbers_in_files() {
    assert_eq!(number_in(" 42\n"), Some(42));
    assert_eq!(number_in("x"), None);
}
