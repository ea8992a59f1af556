use cfn_guard::commands::completions::Shell;
use cfn_guard::commands::validate::OutputFormatType;
use cfn_guard::commands::wrapper::{WriteBuffer, Writer};
use cfn_guard::text::{contains_string, quote_guard_string, replace_colons, split_on_char};

#[test]
fn split_keeps_empty_pieces() {
    assert_eq!(vec!["", "a", "", "b"], split_on_char("/a//b", '/'));
    assert_eq!(vec![""], split_on_char("", '/'));
}

#[test]
fn contains_string_compares_characters() {
    let v = vec![String::from("x"), String::from("yz")];
    assert!(contains_string(&v, "yz"));
    assert!(!contains_string(&v, "y"));
}

#[test]
fn quoting_escapes_and_refuses_control_characters() {
    assert_eq!(Some(String::from("\"a\\\"b\"")), quote_guard_string("a\"b"));
    assert_eq!(None, quote_guard_string("a\nb"));
}

#[test]
fn colons_become_underscores() {
    assert_eq!("AWS_EC2_Volume", replace_colons("AWS::EC2::Volume"));
}

#[test]
fn a_writer_reads_back_what_was_written() {
    let mut writer = Writer::new_with_err(WriteBuffer::Vec(vec![]), WriteBuffer::Vec(vec![]));
    assert!(writer.write_str("héllo ").is_ok());
    let n = writer.write(&[0x77, 0xff]).unwrap();
    assert_eq!(2, n);
    assert!(writer.flush().is_ok());
    assert_eq!("héllo w\u{fffd}", writer.from_utf8().unwrap());
}

#[test]
fn valid_utf8_is_written_unchanged_and_counted_whole() {
    let mut writer = Writer::new_with_err(WriteBuffer::Vec(vec![]), WriteBuffer::Vec(vec![]));
    let bytes = "añb€".as_bytes();
    assert_eq!(bytes.len(), writer.write(bytes).unwrap());
    assert_eq!("añb€", writer.from_utf8().unwrap());
}

#[test]
fn shells_and_formats_are_named() {
    assert_eq!(Shell::Zsh, Shell::from_name("zsh"));
    assert_eq!(Shell::Fish, Shell::from_name("fish"));
    assert_eq!(OutputFormatType::Sarif, OutputFormatType::from_name("sarif"));
    assert_eq!(OutputFormatType::YAML, OutputFormatType::from_name("yaml"));
}

#[test]
fn errors_go_to_their_own_stream() {
    let mut writer = Writer::new_with_err(WriteBuffer::Vec(vec![]), WriteBuffer::Vec(vec![]));
    assert!(writer.write_str("out").is_ok());
    assert!(writer.write_err("warned").is_ok());
    assert!(writer.flush().is_ok());
    assert_eq!("warned\n", writer.err_from_utf8().unwrap());
}
