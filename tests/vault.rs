use kmh::cipher::Encryption;
use kmh::listing::column_widths;
use kmh::record::{JsonDatabseKMH, VaultError};
use kmh::session::{init_db, import_db};
use kmh::vault::{check_for_modify, DBManage};

fn rec(t: &str, u: &str, p: &str, n: &str) -> JsonDatabseKMH {
    JsonDatabseKMH::new(t.to_string(), u.to_string(), p.to_string(), n.to_string())
}

fn three() -> DBManage {
    DBManage::new(vec![rec("a", "ua", "pa", "na"), rec("b", "ub", "pb", "nb"), rec("c", "uc", "pc", "nc")])
}

fn s(x: &str) -> String {
    x.to_string()
}

#[test]
fn add_appends_the_supplied_record() {
    let mut v = three();
    v.add(s("mail"), s("a@b.com"), s("p"), s(""));
    assert_eq!(v.len(), 4);
    assert_eq!(v.records()[3], rec("mail", "a@b.com", "p", ""));
    assert_eq!(v.records()[0], rec("a", "ua", "pa", "na"));
}

#[test]
fn remove_keeps_the_order_of_the_others() {
    let mut v = three();
    assert_eq!(v.remove(1), Ok(()));
    assert_eq!(v.len(), 2);
    assert_eq!(v.records()[0], rec("a", "ua", "pa", "na"));
    assert_eq!(v.records()[1], rec("c", "uc", "pc", "nc"));
}

#[test]
fn remove_last_valid_index() {
    let mut v = three();
    assert_eq!(v.remove(2), Ok(()));
    assert_eq!(v.len(), 2);
    assert_eq!(v.records()[1], rec("b", "ub", "pb", "nb"));
}

#[test]
fn remove_out_of_range() {
    let mut v = three();
    assert_eq!(v.remove(3), Err(VaultError::IndexOutOfRange));
    assert_eq!(v.remove(4), Err(VaultError::IndexOutOfRange));
    assert_eq!(v.remove(usize::MAX), Err(VaultError::IndexOutOfRange));
    assert_eq!(v.len(), 3);
    let mut e = DBManage::new(vec![]);
    assert_eq!(e.remove(0), Err(VaultError::IndexOutOfRange));
}

#[test]
fn modify_replaces_only_non_blank_fields() {
    let mut v = three();
    assert_eq!(v.modify(1, "new title", "  ", "", " n "), Ok(()));
    assert_eq!(v.records()[1], rec("new title", "ub", "pb", " n "));
    assert_eq!(v.records()[0], rec("a", "ua", "pa", "na"));
    assert_eq!(v.records()[2], rec("c", "uc", "pc", "nc"));
}

#[test]
fn modify_with_blank_fields_changes_nothing() {
    let mut v = three();
    assert_eq!(v.modify(0, "", " ", "\t\n", "\u{3000}\u{a0}"), Ok(()));
    assert_eq!(v.records(), three().records());
}

#[test]
fn modify_boundaries() {
    let mut v = three();
    assert_eq!(v.modify(3, "x", "x", "x", "x"), Err(VaultError::IndexOutOfRange));
    assert_eq!(v.modify(7, "x", "x", "x", "x"), Err(VaultError::IndexOutOfRange));
    assert_eq!(v.records(), three().records());
    assert_eq!(v.modify(2, "x", "y", "z", "w"), Ok(()));
    assert_eq!(v.records()[2], rec("x", "y", "z", "w"));
}

#[test]
fn reveal_password_boundaries() {
    let v = three();
    assert_eq!(v.reveal_password(2), Ok(s("pc")));
    assert_eq!(v.reveal_password(0), Ok(s("pa")));
    assert_eq!(v.reveal_password(3), Err(VaultError::IndexOutOfRange));
    assert_eq!(v.reveal_password(10), Err(VaultError::IndexOutOfRange));
}

#[test]
fn check_for_modify_blank_and_not() {
    assert_eq!(check_for_modify(""), None);
    assert_eq!(check_for_modify("   \t\r\n"), None);
    assert_eq!(check_for_modify("\u{2003}\u{85}"), None);
    assert_eq!(check_for_modify(" x "), Some(s(" x ")));
    assert_eq!(check_for_modify("abc"), Some(s("abc")));
}

#[test]
fn show_masks_passwords_by_byte_length() {
    let v = DBManage::new(vec![rec("t", "u", "pässword", "n"), rec("t2", "u2", "", "n2")]);
    let rows = v.show();
    assert_eq!(rows.len(), 2);
    assert_eq!(rows[0], vec![s("0"), s("t"), s("u"), s("*********"), s("n")]);
    assert_eq!(rows[1], vec![s("1"), s("t2"), s("u2"), s(""), s("n2")]);
}

#[test]
fn export_rows_hold_passwords_in_clear() {
    let v = three();
    let rows = v.export_rows();
    assert_eq!(rows.len(), 3);
    assert_eq!(rows[2], vec![s("2"), s("c"), s("uc"), s("pc"), s("nc")]);
}

#[test]
fn save_then_open_gives_the_vault_back() {
    let mut v = three();
    v.add(s("mail"), s("a@b.com"), s("p"), s(""));
    for suite in [Encryption::AES256GCM, Encryption::SALSA20, Encryption::CHACHA20].iter() {
        let blob = v.save(*suite, b"pw").unwrap();
        let w = DBManage::open(suite, b"pw", blob).unwrap();
        assert_eq!(w.records(), v.records());
    }
}

#[test]
fn new_vault_opens_empty() {
    for suite in [Encryption::AES256GCM, Encryption::SALSA20, Encryption::CHACHA20].iter() {
        let blob = init_db(*suite, b"pw");
        assert_eq!(DBManage::open(suite, b"pw", blob).unwrap().len(), 0);
        let imported = import_db(*suite, b"pw");
        assert_eq!(DBManage::open(suite, b"pw", imported).unwrap().len(), 0);
    }
}

#[test]
fn hunter2_scenario() {
    let blob = init_db(Encryption::AES256GCM, b"hunter2");
    let mut v = DBManage::open(&Encryption::AES256GCM, b"hunter2", blob).unwrap();
    assert_eq!(v.len(), 0);
    let blob = v.save(Encryption::AES256GCM, b"hunter2").unwrap();
    let mut v2 = DBManage::open(&Encryption::AES256GCM, b"hunter2", blob).unwrap();
    assert_eq!(v2.len(), 0);
    v.add(s("mail"), s("a@b.com"), s("p"), s(""));
    v2.add(s("mail"), s("a@b.com"), s("p"), s(""));
    let blob = v2.save(Encryption::AES256GCM, b"hunter2").unwrap();
    let v3 = DBManage::open(&Encryption::AES256GCM, b"hunter2", blob.clone()).unwrap();
    assert_eq!(v3.len(), 1);
    assert_eq!(v3.records()[0], rec("mail", "a@b.com", "p", ""));
    assert_eq!(v3.records(), v.records());
    assert_eq!(
        DBManage::open(&Encryption::AES256GCM, b"wrong", blob).err(),
        Some(VaultError::AuthFailure)
    );
}

#[test]
fn column_widths_take_the_widest_cell() {
    let headers = vec![s("ID"), s("Title"), s("Password")];
    let rows = vec![
        vec![s("0"), s("a much longer title"), s("***")],
        vec![s("10"), s("é"), s("")],
    ];
    assert_eq!(column_widths(&headers, &rows), Some(vec![2, 19, 8]));
    assert_eq!(column_widths(&headers, &vec![]), Some(vec![2, 5, 8]));
    let uni = vec![vec![s("☃☃☃"), s(""), s("")]];
    assert_eq!(column_widths(&headers, &uni), Some(vec![9, 5, 8]));
}

#[test]
fn column_widths_reject_a_short_row() {
    let headers = vec![s("ID"), s("Title")];
    let rows = vec![vec![s("0"), s("t")], vec![s("1")]];
    assert_eq!(column_widths(&headers, &rows), None);
}
