use etopa::config::{conf_file, parse_u8};

#[test]
fn config_file_sets_options() {
    let buf = String::from("port=8080\naddr = 0.0.0.0\nthreads=4\ncert=c.pem\nkey=k.pem\nbogus=1\nnoequals");
    let mut port = "4490";
    let mut addr = "[::]";
    let mut threads: u8 = 1;
    let mut cert = "cert.pem";
    let mut key = "key.pem";
    conf_file(&buf, &mut port, &mut addr, &mut threads, &mut cert, &mut key);
    assert_eq!(port, "8080");
    assert_eq!(addr, "0.0.0.0");
    assert_eq!(threads, 4);
    assert_eq!(cert, "c.pem");
    assert_eq!(key, "k.pem");
}

#[test]
fn config_file_keeps_defaults() {
    let buf = String::from("threads=300\nPort=1\nport\n");
    let mut port = "4490";
    let mut addr = "[::]";
    let mut threads: u8 = 1;
    let mut cert = "cert.pem";
    let mut key = "key.pem";
    conf_file(&buf, &mut port, &mut addr, &mut threads, &mut cert, &mut key);
    assert_eq!(port, "4490");
    assert_eq!(addr, "[::]");
    assert_eq!(threads, 1);
    assert_eq!(cert, "cert.pem");
    assert_eq!(key, "key.pem");
}

#[test]
fn config_later_lines_win() {
    let buf = String::from("port=1\nport = 2 \ncert=a=b");
    let mut port = "4490";
    let mut addr = "[::]";
    let mut threads: u8 = 1;
    let mut cert = "cert.pem";
    let mut key = "key.pem";
    conf_file(&buf, &mut port, &mut addr, &mut threads, &mut cert, &mut key);
    assert_eq!(port, "2");
    assert_eq!(cert, "a=b");
}

#[test]
fn u8_parsing_like_std() {
    for s in ["0", "7", "255", "256", "+5", "-1", "", "+", "12a", "007", " 1", "1000"] {
        assert_eq!(parse_u8(s), s.parse::<u8>().ok(), "input {:?}", s);
    }
}
