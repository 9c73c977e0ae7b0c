use pattern_maker::pdf::{fmt_dec, fmt_padded10};
use pattern_maker::{write_info, write_xref};

#[test]
fn test_fmt_dec() {
    assert_eq!(fmt_dec(0), "0");
    assert_eq!(fmt_dec(7), "7");
    assert_eq!(fmt_dec(10), "10");
    assert_eq!(fmt_dec(123), "123");
    assert_eq!(fmt_dec(1000000), "1000000");
    assert_eq!(fmt_dec(usize::MAX), format!("{}", usize::MAX));
}

#[test]
fn test_fmt_padded10() {
    assert_eq!(fmt_padded10(0), "0000000000");
    assert_eq!(fmt_padded10(42), "0000000042");
    assert_eq!(fmt_padded10(1234567890), "1234567890");
    assert_eq!(fmt_padded10(12345678901), "12345678901");
    assert_eq!(fmt_padded10(987), format!("{:010}", 987));
}

#[test]
fn test_write_info_two_pages() {
    let mut out = String::from("HEAD");
    write_info(&mut out, vec![5, 8]);
    let expected = "HEAD2 0 obj\n<< /Type /Pages\n   /Count 2 \n   /Kids [ 5 0 R 8 0 R  ]\n>>\nendobj\n1 0 obj\n<< /Type /Catalog\n   /Pages 2 0 R\n>>\nendobj\n";
    assert_eq!(out, expected);
}

#[test]
fn test_write_info_matches_format() {
    let page_id_list: Vec<usize> = vec![3, 6, 9];
    let mut out = String::new();
    write_info(&mut out, page_id_list.clone());
    let expected = format!(
        "2 0 obj\n<< /Type /Pages\n   /Count {count_pages} \n   /Kids [ {page_id_list} ]\n>>\nendobj\n1 0 obj\n<< /Type /Catalog\n   /Pages 2 0 R\n>>\nendobj\n",
        count_pages = page_id_list.len(),
        page_id_list = page_id_list
            .iter()
            .map(|id| format!("{} 0 R ", id))
            .collect::<String>(),
    );
    assert_eq!(out, expected);
}

#[test]
fn test_write_info_no_pages() {
    let mut out = String::new();
    write_info(&mut out, vec![]);
    let expected = "2 0 obj\n<< /Type /Pages\n   /Count 0 \n   /Kids [  ]\n>>\nendobj\n1 0 obj\n<< /Type /Catalog\n   /Pages 2 0 R\n>>\nendobj\n";
    assert_eq!(out, expected);
}

#[test]
fn test_write_xref_two_objects() {
    let mut out = String::new();
    write_xref(&mut out, vec![15, 1234567890], 999);
    let expected = "xref\n0 2\n0000000000 65535 f \n0000000015 00000 n 1234567890 00000 n trailer\n<< /Size 2\n   /Root 1 0 R\n>>\nstartxref\n999\n";
    assert_eq!(out, expected);
}

#[test]
fn test_write_xref_matches_format() {
    let object_positions: Vec<usize> = vec![9, 1001, 52807];
    let object_end_position: usize = 60001;
    let mut out = String::new();
    write_xref(&mut out, object_positions.clone(), object_end_position);
    let mut expected = format!("xref\n0 {}\n0000000000 65535 f \n", object_positions.len());
    for position in &object_positions {
        expected.push_str(&format!("{:010} 00000 n ", position));
    }
    expected.push_str(&format!(
        "trailer\n<< /Size {count_objects}\n   /Root 1 0 R\n>>\nstartxref\n{object_end_position}\n",
        count_objects = object_positions.len(),
        object_end_position = object_end_position
    ));
    assert_eq!(out, expected);
}

#[test]
fn test_write_xref_appends() {
    let mut out = String::from("%PDF-1.7\n");
    write_xref(&mut out, vec![0], 1);
    assert!(out.starts_with("%PDF-1.7\nxref\n0 1\n"));
    assert!(out.ends_with("startxref\n1\n"));
}
