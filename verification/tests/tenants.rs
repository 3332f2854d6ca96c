use bladeworks::tenants::{parse_tenant_id, tenant_dir_name, Db};

#[test]
fn dir_names_are_decimal() {
    assert_eq!(tenant_dir_name(0), "0");
    assert_eq!(tenant_dir_name(7), "7");
    assert_eq!(tenant_dir_name(10), "10");
    assert_eq!(tenant_dir_name(42), "42");
    assert_eq!(tenant_dir_name(100), "100");
    assert_eq!(tenant_dir_name(255), "255");
}

#[test]
fn dir_names_match_to_string() {
    for t in 0..=255u8 {
        assert_eq!(tenant_dir_name(t), t.to_string());
    }
}

#[test]
fn dir_names_read_back() {
    for t in 0..=255u8 {
        assert_eq!(parse_tenant_id(&tenant_dir_name(t)), Some(t));
    }
}

#[test]
fn parse_accepts_tenant_ids() {
    assert_eq!(parse_tenant_id("42"), Some(42));
    assert_eq!(parse_tenant_id("+7"), Some(7));
    assert_eq!(parse_tenant_id("007"), Some(7));
    assert_eq!(parse_tenant_id("0255"), Some(255));
}

#[test]
fn parse_rejects_other_names() {
    assert_eq!(parse_tenant_id(""), None);
    assert_eq!(parse_tenant_id("+"), None);
    assert_eq!(parse_tenant_id("-1"), None);
    assert_eq!(parse_tenant_id("256"), None);
    assert_eq!(parse_tenant_id("99999999999"), None);
    assert_eq!(parse_tenant_id("a1"), None);
    assert_eq!(parse_tenant_id("12x"), None);
    assert_eq!(parse_tenant_id("1 "), None);
    assert_eq!(parse_tenant_id("++1"), None);
    assert_eq!(parse_tenant_id("١"), None);
}

#[test]
fn parse_agrees_with_from_str() {
    let names = [
        "", "+", "-", "0", "00", "+0", "-0", "1", "9", "10", "99", "100", "199", "200", "249",
        "250", "255", "256", "300", "999", "1000", "+255", "+256", "0000000000255", "x", "1x",
        "x1", " 1", "1 ", "+-1", "٣", "12.0",
    ];
    for name in names {
        assert_eq!(parse_tenant_id(name), name.parse::<u8>().ok(), "{name:?}");
    }
}

fn open_len(env: &String) -> Result<usize, String> {
    Ok(env.len())
}

fn open_fail(env: &String) -> Result<usize, String> {
    Err(format!("cannot open {env}"))
}

#[test]
fn unknown_tenant_has_no_provider() {
    let db: Db<String> = Db::new();
    assert_eq!(db.provider(1, open_len), Ok(None));
    assert_eq!(db.provider_mut(1, open_len), Ok(None));
}

#[test]
fn created_tenant_is_served_from_its_env() {
    let mut db: Db<String> = Db::new();
    db.create_tenant(1, "one".to_string());
    db.create_tenant(2, "second".to_string());
    assert_eq!(db.provider(1, open_len), Ok(Some(3)));
    assert_eq!(db.provider_mut(2, open_len), Ok(Some(6)));
    assert_eq!(db.provider(3, open_len), Ok(None));
}

#[test]
fn provider_error_is_passed_on() {
    let mut db: Db<String> = Db::new();
    db.create_tenant(4, "four".to_string());
    assert_eq!(db.provider(4, open_fail), Err("cannot open four".to_string()));
    assert_eq!(db.provider_mut(4, open_fail), Err("cannot open four".to_string()));
    assert_eq!(db.provider(5, open_fail), Ok(None));
}

#[test]
fn recreating_a_tenant_replaces_its_env() {
    let mut db: Db<String> = Db::new();
    db.create_tenant(1, "one".to_string());
    db.create_tenant(1, "uno!".to_string());
    assert_eq!(db.provider(1, open_len), Ok(Some(4)));
}

#[test]
fn dropped_tenant_has_no_provider_and_others_stay() {
    let mut db: Db<String> = Db::new();
    db.create_tenant(1, "one".to_string());
    db.create_tenant(2, "two!".to_string());
    db.drop_tenant(1);
    assert_eq!(db.provider(1, open_len), Ok(None));
    assert_eq!(db.provider(2, open_len), Ok(Some(4)));
    db.drop_tenant(9);
    assert_eq!(db.provider(2, open_len), Ok(Some(4)));
}

#[test]
fn created_tenant_stays_until_dropped() {
    let mut db: Db<String> = Db::new();
    db.create_tenant(1, "one".to_string());
    db.create_tenant(2, "two".to_string());
    db.drop_tenant(2);
    db.drop_tenant(3);
    db.create_tenant(1, "again".to_string());
    db.create_tenant(4, "four".to_string());
    assert_eq!(db.provider(1, open_len), Ok(Some(5)));
    assert_eq!(db.provider(4, open_len), Ok(Some(4)));
    db.drop_tenant(1);
    assert_eq!(db.provider(1, open_len), Ok(None));
    assert_eq!(db.provider(4, open_len), Ok(Some(4)));
}
