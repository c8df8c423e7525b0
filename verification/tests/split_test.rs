use fastlog::plugin::file_name::extract_file_name;

#[test]
fn test_extract_file_name() {
    let p = extract_file_name("temp.log");
    assert_eq!(p, "temp.log");
}

#[test]
fn test_extract_file_name2() {
    let p = extract_file_name("logs/temp.log");
    assert_eq!(p, "temp.log");
}

#[test]
fn test_extract_file_name3() {
    let p = extract_file_name("logs/");
    assert_eq!(p, "");
}

#[test]
fn test_extract_file_name4() {
    let p = extract_file_name("C:/logs");
    assert_eq!(p, "logs");
}

#[test]
fn test_extract_file_name5() {
    let p = extract_file_name("C:/logs/aa.log");
    assert_eq!(p, "aa.log");
}

#[test]
fn test_extract_file_name6() {
    let p = extract_file_name("C:\\logs\\aa.log");
    assert_eq!(p, "aa.log");
}
