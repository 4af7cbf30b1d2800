use deathlogger_agent::lua::{parse_latest_death_from_sv, ReadError};
use deathlogger_agent::record::Norm;
use deathlogger_agent::savedvars::{death_from_entry, latest_death, latest_entry, normalize, LuaVal};

fn s(x: &str) -> LuaVal {
    LuaVal::Str(x.to_string())
}

fn entry(at: i64, player: &str) -> LuaVal {
    LuaVal::Table(vec![
        (s("at"), LuaVal::Int(at)),
        (s("player"), s(player)),
        (s("realm"), s("Realm")),
    ])
}

fn db(deaths: Vec<(LuaVal, LuaVal)>) -> LuaVal {
    LuaVal::Table(vec![(s("deaths"), LuaVal::Table(deaths))])
}

#[test]
fn latest_is_max_key_not_walk_order() {
    let deaths = vec![
        (LuaVal::Int(1), entry(10, "one")),
        (LuaVal::Int(3), entry(30, "three")),
        (LuaVal::Int(2), entry(20, "two")),
    ];
    assert_eq!(latest_entry(&deaths), Some(1));
    let rec = latest_death(&db(deaths)).unwrap();
    assert_eq!(rec.player, "three");
    assert_eq!(rec.at, 30);
}

#[test]
fn latest_ignores_non_entries() {
    let deaths = vec![
        (LuaVal::Int(9), s("not a table")),
        (LuaVal::Int(-4), entry(1, "neg")),
        (s("x"), entry(1, "named")),
        (LuaVal::Int(2), entry(20, "two")),
    ];
    assert_eq!(latest_entry(&deaths), Some(3));
    assert_eq!(latest_entry(&vec![(s("x"), entry(1, "n"))]), None);
}

#[test]
fn no_record_without_deaths_table() {
    assert!(latest_death(&LuaVal::Nil).is_none());
    assert!(latest_death(&LuaVal::Table(vec![])).is_none());
    assert!(latest_death(&LuaVal::Table(vec![(s("deaths"), LuaVal::Int(1))])).is_none());
    assert!(latest_death(&db(vec![])).is_none());
}

#[test]
fn fields_are_read_defensively() {
    let e = vec![
        (s("at"), LuaVal::Num(1234.75f64.to_bits())),
        (s("player"), LuaVal::Int(5)),
        (s("class"), s("MAGE")),
        (s("level"), LuaVal::Num(60.5f64.to_bits())),
        (s("moneyGold"), LuaVal::Int(12)),
        (s("moneySilver"), s("7")),
        (s("instanceName"), s("Deadmines")),
    ];
    let r = death_from_entry(&e);
    assert_eq!(r.at, 1234);
    assert_eq!(r.player, "");
    assert_eq!(r.realm, "");
    assert_eq!(r.class.as_deref(), Some("MAGE"));
    assert_eq!(r.level, Some(60));
    assert_eq!(r.money_gold, Some(12));
    assert_eq!(r.money_silver, None);
    assert_eq!(r.money_copper, None);
    assert!(matches!(r.location, Norm::Null));
    match r.instance {
        Norm::Object(m) => {
            let names: Vec<&str> = m.iter().map(|(k, _)| k.as_str()).collect();
            assert_eq!(names, vec!["instanceID", "instanceName", "instanceDifficulty", "mapDifficultyID"]);
            assert!(matches!(&m[1].1, Norm::Str(x) if x == "Deadmines"));
            assert!(matches!(m[0].1, Norm::Null));
        }
        _ => panic!("instance must be an object"),
    }
}

#[test]
fn integer_keyed_table_becomes_sorted_array() {
    let t = LuaVal::Table(vec![
        (LuaVal::Int(3), s("c")),
        (LuaVal::Int(1), s("a")),
        (LuaVal::Int(2), LuaVal::Bool(true)),
    ]);
    match normalize(&t) {
        Norm::Array(a) => {
            assert_eq!(a.len(), 3);
            assert!(matches!(&a[0], Norm::Str(x) if x == "a"));
            assert!(matches!(a[1], Norm::Bool(true)));
            assert!(matches!(&a[2], Norm::Str(x) if x == "c"));
        }
        other => panic!("expected array, got {other:?}"),
    }
}

#[test]
fn mixed_table_becomes_object_with_text_keys() {
    let t = LuaVal::Table(vec![
        (s("name"), s("Hogger")),
        (LuaVal::Int(-12), LuaVal::Int(1)),
        (LuaVal::Bool(true), LuaVal::Int(2)),
        (s("name"), s("Again")),
    ]);
    match normalize(&t) {
        Norm::Object(m) => {
            assert_eq!(m.len(), 3);
            let find = |k: &str| m.iter().find(|(n, _)| n == k).map(|(_, v)| v);
            assert!(matches!(find("name"), Some(Norm::Str(x)) if x == "Again"));
            assert!(matches!(find("-12"), Some(Norm::Int(1))));
            assert!(matches!(find("key"), Some(Norm::Int(2))));
        }
        other => panic!("expected object, got {other:?}"),
    }
}

#[test]
fn empty_table_becomes_empty_object_and_scalars_pass() {
    assert!(matches!(normalize(&LuaVal::Table(vec![])), Norm::Object(m) if m.is_empty()));
    assert!(matches!(normalize(&LuaVal::Int(-3)), Norm::Int(-3)));
    assert!(matches!(normalize(&LuaVal::Num(7)), Norm::Float(7)));
    assert!(matches!(normalize(&LuaVal::Bytes), Norm::Str(x) if x.is_empty()));
    assert!(matches!(normalize(&LuaVal::Other), Norm::Null));
    assert!(matches!(normalize(&LuaVal::Nil), Norm::Null));
}

#[test]
fn lua_file_latest_death_is_read() {
    let content = r#"
DeathLoggerDB = {
  ["deaths"] = {
    [1] = { ["at"] = 100, ["player"] = "Ann", ["realm"] = "R", ["level"] = 10 },
    [3] = { ["at"] = 300, ["player"] = "Cid", ["realm"] = "R", ["level"] = 12.9,
            ["bags"] = { "Hearthstone", "Bread" }, ["class"] = "ROGUE" },
    [2] = { ["at"] = 200, ["player"] = "Bea", ["realm"] = "R" },
  },
}
"#;
    let rec = parse_latest_death_from_sv(content).expect("valid file").expect("has a death");
    assert_eq!(rec.player, "Cid");
    assert_eq!(rec.at, 300);
    assert_eq!(rec.level, Some(12));
    assert_eq!(rec.class.as_deref(), Some("ROGUE"));
    match rec.bags {
        Norm::Array(a) => {
            assert_eq!(a.len(), 2);
            assert!(matches!(&a[0], Norm::Str(x) if x == "Hearthstone"));
        }
        other => panic!("expected array, got {other:?}"),
    }
}

#[test]
fn lua_file_without_db_has_no_record() {
    assert!(parse_latest_death_from_sv("Other = 1").unwrap().is_none());
    assert!(parse_latest_death_from_sv("DeathLoggerDB = { deaths = {} }").unwrap().is_none());
}

#[test]
fn lua_file_half_written_is_an_error() {
    assert!(parse_latest_death_from_sv("DeathLoggerDB = { [\"deaths\"] = {").is_err());
}

#[test]
fn saved_variables_layout_with_comments_is_read() {
    let content = "\nDeathLoggerDB = {\n[\"deaths\"] = {\n{\n[\"at\"] = 1700000000,\n[\"player\"] = \"Ann\",\n[\"realm\"] = \"R\",\n[\"moneyCopper\"] = -5,\n[\"enabled\"] = true,\n[\"zone\"] = nil,\n}, -- [1]\n},\n}\n";
    let rec = parse_latest_death_from_sv(content).unwrap().unwrap();
    assert_eq!(rec.at, 1700000000);
    assert_eq!(rec.money_copper, Some(-5));
}

#[test]
fn lua_code_is_refused_before_running() {
    for text in [
        "os.exit()",
        "while true do end",
        "DeathLoggerDB = load\"while true do end\"{}",
        "x = print\"hi\"",
        "for i = 1, 10 do end",
        "DeathLoggerDB = [[long]]",
        "--[[ long comment ]] DeathLoggerDB = {}",
        "DeathLoggerDB = { \"open",
        "function f() end",
    ] {
        assert!(matches!(parse_latest_death_from_sv(text), Err(ReadError::NotData)), "{text}");
    }
}

#[test]
fn self_referring_database_has_no_record() {
    let r = parse_latest_death_from_sv("DeathLoggerDB = {}; DeathLoggerDB.deaths = DeathLoggerDB");
    assert!(matches!(r, Ok(None)));
}

#[test]
fn self_referring_entry_stops_the_copy() {
    let r = parse_latest_death_from_sv("e = { at = 1 }; e.me = e; DeathLoggerDB = { deaths = { e } }");
    assert!(matches!(r, Err(ReadError::TooDeep)));
}

#[test]
fn million_deaths_are_read_one_at_a_time() {
    let mut text = String::from("DeathLoggerDB = { deaths = {\n");
    for _ in 0..1_050_000 {
        text.push_str("{},\n");
    }
    text.push_str("{ at = 9, player = \"Last\", realm = \"R\" },\n} }\n");
    let rec = parse_latest_death_from_sv(&text).unwrap().unwrap();
    assert_eq!(rec.player, "Last");
    assert_eq!(rec.at, 9);
}

#[test]
fn shared_tables_are_bounded_by_the_value_budget() {
    let mut text = String::from("t0 = {}\n");
    for i in 1..40 {
        text.push_str(&format!("t{i} = {{ t{p}, t{p}, t{p}, t{p} }}\n", p = i - 1));
    }
    text.push_str("DeathLoggerDB = { deaths = t39 }\n");
    assert!(matches!(parse_latest_death_from_sv(&text), Err(ReadError::TooManyValues)));
}

#[test]
fn strings_may_hold_keywords() {
    let content = "DeathLoggerDB = { deaths = { [1] = { at = 5, player = \"while (for) do: end\", realm = 'x\\'y' } } }";
    let rec = parse_latest_death_from_sv(content).unwrap().unwrap();
    assert_eq!(rec.player, "while (for) do: end");
    assert_eq!(rec.realm, "x'y");
}
