use std::collections::HashMap;
use std::mem::size_of;
use rc_gcode::text::{bytes_to_string, last_path, string_to_bytes};

#[test]
fn test_macro_pta() {
    let a = 1;
    let b = true;
    let c = "2";
    println!("{:p}  {:<10}{:>10}", &a, "a", a);
    println!("{:p}  {:<10}{:>10}", &a, "a", a);
    println!("{:p}  {:<10}{:>10}", &b, "b", b);
    println!("{:p}  {:<10}{:>10}", &c, "c", c);
}

#[test]
fn test_macro_show_size() {
    println!("{:<24} {:>4} {} {}", "Type", "T", "Option<T>", "Result<T, io::Error>");
    println!("{}", "-".repeat(64));
    println!("{:<24} {:4} {:8} {:12}", "u8", size_of::<u8>(), size_of::<Option<u8>>(), size_of::<Result<u8, std::io::Error>>());
    println!("{:<24} {:4} {:8} {:12}", "f64", size_of::<f64>(), size_of::<Option<f64>>(), size_of::<Result<f64, std::io::Error>>());
    println!("{:<24} {:4} {:8} {:12}", "&u8", size_of::<&u8>(), size_of::<Option<&u8>>(), size_of::<Result<&u8, std::io::Error>>());
    println!("{:<24} {:4} {:8} {:12}", "Box<u8>", size_of::<Box<u8>>(), size_of::<Option<Box<u8>>>(), size_of::<Result<Box<u8>, std::io::Error>>());
    println!("{:<24} {:4} {:8} {:12}", "&[u8]", size_of::<&[u8]>(), size_of::<Option<&[u8]>>(), size_of::<Result<&[u8], std::io::Error>>());
    println!("{:<24} {:4} {:8} {:12}", "String", size_of::<String>(), size_of::<Option<String>>(), size_of::<Result<String, std::io::Error>>());
    println!("{:<24} {:4} {:8} {:12}", "Vec<u8>", size_of::<Vec<u8>>(), size_of::<Option<Vec<u8>>>(), size_of::<Result<Vec<u8>, std::io::Error>>());
    println!(
        "{:<24} {:4} {:8} {:12}",
        "HashMap<String, String>",
        size_of::<HashMap<String, String>>(),
        size_of::<Option<HashMap<String, String>>>(),
        size_of::<Result<HashMap<String, String>, std::io::Error>>()
    );
    println!("{:<24} {:4} {:8} {:12}", "Option<u8>", size_of::<Option<u8>>(), size_of::<Option<Option<u8>>>(), size_of::<Result<Option<u8>, std::io::Error>>());
}

#[test]
fn text_helpers() {
    assert_eq!(last_path("a/b/c.gcode"), "c.gcode");
    assert_eq!(last_path("plain"), "plain");
    assert_eq!(last_path("dir/"), "");
    assert_eq!(string_to_bytes("hé"), vec![b'h', 0xC3, 0xA9]);
    assert_eq!(bytes_to_string(&[b'a', 0xFF, b'b']), "a\u{FFFD}b");
    assert_eq!(bytes_to_string(&[0xC3, 0xA9]), "é");
}
