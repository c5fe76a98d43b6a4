use backtester::names::{is_price_file, output_name, price_file_name};

fn out(name: &str) -> String {
    String::from_utf8(output_name(name.as_bytes())).expect("text in, text out")
}

#[test]
fn files_ending_in_txt_are_price_files() {
    assert!(is_price_file(b"BTC-240101-120000.txt"));
    assert!(is_price_file(b"a.txt"));
    assert!(is_price_file(b"a.b.txt"));
    assert!(is_price_file(b"..txt"));
}

#[test]
fn other_files_are_no_price_files() {
    assert!(!is_price_file(b"a.out"));
    assert!(!is_price_file(b"a.TXT"));
    assert!(!is_price_file(b"a.txt.bak"));
    assert!(!is_price_file(b"a.txtx"));
    assert!(!is_price_file(b"a.tx"));
    assert!(!is_price_file(b"txt"));
    assert!(!is_price_file(b".txt"));
    assert!(!is_price_file(b"a."));
    assert!(!is_price_file(b""));
    assert!(!is_price_file(b"atxt"));
}

#[test]
fn result_file_is_the_stem_with_out() {
    assert_eq!(out("BTC-240101-120000.txt"), "BTC-240101-120000.out");
    assert_eq!(out("a.b.txt"), "a.b.out");
    assert_eq!(out("prices"), "prices.out");
    assert_eq!(out(".hidden"), ".hidden.out");
    assert_eq!(out("a."), "a.out");
    assert_eq!(out(""), ".out");
}

#[test]
fn price_file_is_token_hyphen_stamp_txt() {
    let name = price_file_name(b"ETH", b"240229-235959");
    assert_eq!(name, b"ETH-240229-235959.txt".to_vec());
    assert!(is_price_file(&name));
    assert_eq!(output_name(&name), b"ETH-240229-235959.out".to_vec());
}

#[test]
fn price_file_name_takes_any_token() {
    let name = price_file_name(b"", b"");
    assert_eq!(name, b"-.txt".to_vec());
    assert!(is_price_file(&name));
    let dotted = price_file_name(b"w.eth", b"1");
    assert_eq!(dotted, b"w.eth-1.txt".to_vec());
    assert!(is_price_file(&dotted));
}

#[test]
fn result_files_are_never_read_as_prices() {
    for name in ["a.txt", "a", ".txt", "", "a.b.c", "x.out", "a.txt.txt"] {
        assert!(!is_price_file(&output_name(name.as_bytes())));
    }
}
