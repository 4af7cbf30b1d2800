use deathlogger_agent::number::float_to_i64;
use deathlogger_agent::script::is_data_script_text;
use deathlogger_agent::config::{branch_choices, dedup_candidates, drive_search_patterns, Config};
use deathlogger_agent::files::{is_saved_variables_file, is_screenshot_file};
use deathlogger_agent::paths::{config_dir_from, config_path, join_path, state_path, to_key, WowPaths};
use deathlogger_agent::text::decimal_text;

#[test]
fn key_joins_player_and_realm() {
    assert_eq!(to_key("Bob", "Stormrage"), "Bob@Stormrage");
    assert_eq!(to_key("", ""), "@");
}

#[test]
fn decimal_text_writes_integers() {
    assert_eq!(decimal_text(0), "0");
    assert_eq!(decimal_text(42), "42");
    assert_eq!(decimal_text(-7), "-7");
    assert_eq!(decimal_text(i64::MIN), i64::MIN.to_string());
    assert_eq!(decimal_text(i64::MAX), i64::MAX.to_string());
}

#[test]
fn screenshot_files_by_extension() {
    assert!(is_screenshot_file("C:/WoW/Screenshots/WoWScrnShot_01.jpg", true));
    assert!(is_screenshot_file("shot.JPEG", true));
    assert!(is_screenshot_file("a\\b.PnG", true));
    assert!(!is_screenshot_file("shot.jpg", false));
    assert!(!is_screenshot_file("shot.gif", true));
    assert!(!is_screenshot_file("dir/.png", true));
    assert!(!is_screenshot_file("jpg", true));
    assert!(!is_screenshot_file("dir.png/file", true));
}

#[test]
fn saved_variables_file_by_name() {
    assert!(is_saved_variables_file("WTF/Account/X/SavedVariables/DeathLogger.lua"));
    assert!(is_saved_variables_file("DeathLogger.lua"));
    assert!(!is_saved_variables_file("WTF/OtherDeathLogger.lua"));
    assert!(!is_saved_variables_file("DeathLogger.lua.bak"));
}

#[test]
fn paths_are_joined_once() {
    assert_eq!(join_path("a", "b"), "a/b");
    assert_eq!(join_path("a/", "b"), "a/b");
    assert_eq!(join_path("", "b"), "b");
    let w = WowPaths { root: "C:\\Games\\WoW".into(), branch: "_retail_".into() };
    assert_eq!(w.branch_root(), "C:\\Games\\WoW/_retail_");
    assert_eq!(w.screenshots_dir(), "C:\\Games\\WoW/_retail_/Screenshots");
    assert_eq!(w.addons_dir(), "C:\\Games\\WoW/_retail_/Interface/AddOns");
    assert_eq!(
        w.wtf_savedvariables_glob(),
        "C:\\Games\\WoW/_retail_/WTF/Account/*/SavedVariables/DeathLogger.lua"
    );
}

#[test]
fn config_locations() {
    assert_eq!(config_dir_from(Some("/data"), Some("/home")).unwrap(), "/data/DeathLoggerAgent");
    assert_eq!(
        config_dir_from(None, Some("/home/u")).unwrap(),
        "/home/u/AppData/Roaming/DeathLoggerAgent"
    );
    assert!(config_dir_from(None, None).is_none());
    assert_eq!(config_path("/d"), "/d/config.toml");
    assert_eq!(state_path("/d"), "/d/state.json");
}

#[test]
fn config_default_values() {
    let c = Config::default();
    assert_eq!(c.wow_root, "");
    assert_eq!(c.wow_branch, "_retail_");
    assert_eq!(c.api_url, "https://your-server.example/upload");
    assert_eq!(c.api_token, "");
    assert!(!c.start_with_windows);
    assert_eq!(c.pair_window_secs, 120);
    assert!(c.update_addon_on_start);
}

#[test]
fn branch_choices_offer_present_or_all() {
    assert_eq!(branch_choices(&[false, true, false, true]), vec!["_classic_", "_classic_ptr_"]);
    assert_eq!(
        branch_choices(&[false, false, false, false]),
        vec!["_retail_", "_classic_", "_classic_era_", "_classic_ptr_"]
    );
}

#[test]
fn candidates_dedup_and_patterns() {
    let c = vec!["b".to_string(), "a".to_string(), "b".to_string(), "a".to_string()];
    assert_eq!(dedup_candidates(&c), vec!["b", "a"]);
    assert_eq!(drive_search_patterns()[0], "C:\\**\\World of Warcraft");
}

#[test]
fn data_script_shapes() {
    assert!(is_data_script_text("A = { [\"k\"] = 1.5e-3, [2] = -4, x = true, y = nil, }, -- [1]\n"));
    assert!(is_data_script_text(""));
    assert!(!is_data_script_text("A = f(1)"));
    assert!(!is_data_script_text("A = b {}"));
    assert!(!is_data_script_text("A = b 'x'"));
    assert!(!is_data_script_text("A = b -- c\n 'x'"));
    assert!(!is_data_script_text("local A = 1"));
    assert!(!is_data_script_text("A = 1 return"));
    assert!(!is_data_script_text("A = t[=[x]=]"));
}

#[test]
fn float_truncation_matches_rust_casts() {
    for x in [
        0.0f64, -0.0, 0.5, -0.5, 1.0, 1.999, -1.999, 1234.75, -1234.75, 4503599627370495.5,
        9007199254740993.0, 1e18, -1e18, 9.2e18, 9.3e18, -9.3e18, 9223372036854775807.0,
        -9223372036854775808.0, f64::INFINITY, f64::NEG_INFINITY, f64::NAN, 5e-324, 1e300,
    ] {
        assert_eq!(float_to_i64(x.to_bits()), x as i64, "{x}");
    }
}
