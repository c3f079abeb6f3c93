use means_core::error::Error;
use means_core::imports::email::{boundary_start, delivery, extract, receipt, routing_filename, safe_name, unnamed_extension};

fn message() -> Vec<u8> {
    let text = "From: bank@example.com\r\nContent-Type: multipart/mixed; boundary=\"b1\"\r\n\r\n--b1\r\nContent-Type: text/plain\r\n\r\nHello\r\n--b1\r\nContent-Type: text/csv; name=\"x.csv\"\r\nContent-Disposition: attachment; filename=\"../stmt 2026.csv\"\r\nContent-Transfer-Encoding: BASE64 \r\n\r\nYSxiCjEsMgo=\r\n--b1--\r\n";
    text.as_bytes().to_vec()
}

#[test]
fn attachments_are_decoded_and_named_safely() {
    let m = extract(&message()).unwrap();
    assert_eq!(m.attachments.len(), 1);
    let a = &m.attachments[0];
    assert_eq!(a.part, 2);
    assert_eq!(a.content, b"a,b\n1,2\n");
    assert_eq!(a.original_filename, "../stmt 2026.csv");
    assert_eq!(a.content_type, "text/csv");
    assert_eq!(a.inbox_filename, format!("email-{}-2-stmt_2026.csv", m.checksum));
    let d = delivery(&m, true);
    assert!(d.already_received);
    assert_eq!(d.filenames, [a.inbox_filename.clone()]);
}

#[test]
fn the_receipt_lists_what_was_found() {
    let m = extract(&message()).unwrap();
    let value: serde_json::Value = serde_json::from_str(&receipt(&m)).unwrap();
    assert_eq!(value["version"].as_i64(), Some(1));
    assert_eq!(value["message_checksum"].as_str(), Some(m.checksum.as_str()));
    assert_eq!(value["attachments"][0]["bytes"].as_i64(), Some(8));
    assert_eq!(value["attachments"][0]["part"].as_i64(), Some(2));
    assert_eq!(value["attachments"][0]["original_filename"].as_str(), Some("../stmt 2026.csv"));
    assert_eq!(serde_json::to_string(&value).unwrap(), receipt(&m));
}

#[test]
fn a_routing_name_needs_evidence() {
    let raw = message();
    let m = extract(&raw).unwrap();
    let stored = m.attachments[0].inbox_filename.clone();
    assert_eq!(routing_filename(&stored, b"a,b\n1,2\n", &raw).unwrap().as_deref(), Some("stmt 2026.csv"));
    assert!(matches!(routing_filename(&stored, b"other", &raw), Err(Error::Conflict(_))));
    assert_eq!(routing_filename("n26.csv", b"x", &raw).unwrap(), None);
    let other = stored.replace(&m.checksum, &"0".repeat(64));
    assert!(matches!(routing_filename(&other, b"a,b\n1,2\n", &raw), Err(Error::Conflict(_))));
}

#[test]
fn broken_messages_are_refused() {
    assert!(matches!(extract(b""), Err(Error::Invalid(_))));
    let cut: Vec<u8> = message()[..message().len() - 4].to_vec();
    assert!(matches!(extract(&cut), Err(Error::Parse(m)) if m == "multipart email is incomplete: closing boundary is missing"));
    let odd = String::from_utf8(message()).unwrap().replace("BASE64 ", "rot13");
    assert!(matches!(extract(odd.as_bytes()), Err(Error::Parse(m)) if m == "email attachment has an unsupported or ambiguous transfer encoding"));
    let bad = String::from_utf8(message()).unwrap().replace("YSxiCjEsMgo=", "Y");
    assert!(matches!(extract(bad.as_bytes()), Err(Error::Parse(m)) if m == "cannot decode email attachment transfer encoding"));
    let deep = (0..102).map(|i| format!("Content-Type: multipart/mixed; boundary=b{i:03}\r\n\r\n--b{i:03}\r\n")).collect::<String>();
    assert!(matches!(extract(deep.as_bytes()), Err(Error::Invalid(m)) if m == "email exceeds 100 MIME nesting levels"));
    let wide = format!("Content-Type: multipart/mixed; boundary=b\r\n\r\n{}", "--b\r\n\r\nx\r\n".repeat(300));
    assert!(matches!(extract(wide.as_bytes()), Err(Error::Invalid(m)) if m == "email exceeds 256 MIME parts"));
    let headers = "X: y\r\n".repeat(5000);
    assert!(matches!(extract(headers.as_bytes()), Err(Error::Invalid(m)) if m == "email exceeds 4096 MIME headers"));
}

#[test]
fn safe_names_are_basenames() {
    assert_eq!(safe_name("/etc/../pass wd.TXT", "text/plain"), "pass_wd.TXT");
    assert_eq!(safe_name("C:\\x\\y.tar.gz", "a/b"), "y_tar.gz");
    assert_eq!(safe_name("...", "text/csv"), "attachment.csv");
    assert_eq!(safe_name("caf\u{e9}", "application/pdf"), "caf\u{e9}.pdf");
    assert_eq!(safe_name(&"a".repeat(300), "x/y"), format!("{}.bin", "a".repeat(100)));
    assert_eq!(unnamed_extension("message/rfc822"), "eml");
}

#[test]
fn boundaries_start_lines() {
    assert_eq!(boundary_start(b"x--b\n--b", 0, b"--b"), Some(5));
    assert_eq!(boundary_start(b"--b", 0, b"--b"), Some(0));
    assert_eq!(boundary_start(b"x--b", 0, b"--b"), None);
}
