use queues::multipart::{get_file_name, parse_boundary};

#[test]
fn boundary_is_the_text_after_its_key() {
    let ct = "multipart/form-data; boundary=------------------------s8ZQr2I8xJidvMwZJZP1dZ".to_string();
    assert_eq!(
        parse_boundary(&ct),
        Some("------------------------s8ZQr2I8xJidvMwZJZP1dZ".to_string())
    );
    assert_eq!(parse_boundary(&"boundary=".to_string()), Some(String::new()));
    assert_eq!(parse_boundary(&"a boundary=x boundary=y".to_string()), Some("x boundary=y".to_string()));
}

#[test]
fn missing_boundary_gives_none() {
    assert_eq!(parse_boundary(&"text/plain".to_string()), None);
    assert_eq!(parse_boundary(&"boundary".to_string()), None);
    assert_eq!(parse_boundary(&String::new()), None);
}

#[test]
fn file_name_loses_its_quotes() {
    let cd = "form-data; name=\"file\"; filename=\"archivo.txt\"".to_string();
    assert_eq!(get_file_name(&cd), Ok("archivo.txt".to_string()));
    assert_eq!(get_file_name(&"filename=plain.txt".to_string()), Ok("plain.txt".to_string()));
    assert_eq!(get_file_name(&"filename=\"\"\"".to_string()), Ok(String::new()));
    assert_eq!(get_file_name(&"filename=\"a\"b\"".to_string()), Ok("a\"b".to_string()));
}

#[test]
fn missing_file_name_is_an_error() {
    assert_eq!(
        get_file_name(&"form-data; name=\"file\"".to_string()),
        Err("File not found or empty".to_string())
    );
}
