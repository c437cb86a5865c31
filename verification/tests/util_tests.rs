use alert_core::patterns::CompiledPattern;
use alert_core::record::RecordNode;
use alert_core::timefmt::TimeFormatOptions;
use alert_core::utils::check_allowlist;
use alert_core::utils::check_regex;
use alert_core::utils::check_rule_config;
use alert_core::utils::check_setting_path;
use alert_core::utils::concat_selection_key;
use alert_core::utils::create_rec_info;
use alert_core::utils::get_event_value;
use alert_core::utils::get_serde_number_to_string;
use alert_core::utils::get_thread_num;
use alert_core::utils::is_target_event_id;
use alert_core::utils::make_ascii_titlecase;
use alert_core::utils::value_to_string;

fn text(s: &str) -> RecordNode {
    RecordNode::Text(s.to_string())
}

fn num(s: &str) -> RecordNode {
    RecordNode::Num(s.to_string())
}

fn obj(fields: Vec<(&str, RecordNode)>) -> RecordNode {
    RecordNode::Obj(fields.into_iter().map(|(k, v)| (k.to_string(), v)).collect())
}

fn arr(items: Vec<RecordNode>) -> RecordNode {
    RecordNode::Arr(items)
}

#[test]
fn test_create_recordinfos() {
    let record = obj(vec![
        (
            "Event",
            obj(vec![
                (
                    "System",
                    obj(vec![
                        ("EventID", num("4103")),
                        ("Channel", text("PowerShell")),
                        ("Computer", text("DESKTOP-ICHIICHI")),
                    ]),
                ),
                (
                    "UserData",
                    obj(vec![
                        ("User", text("u1")),
                        ("AccessMask", text("%%1369")),
                        ("Process", text("lsass.exe")),
                    ]),
                ),
                (
                    "UserData_attributes",
                    obj(vec![("xmlns", text("http://schemas.microsoft.com/win/2004/08/events/event"))]),
                ),
            ]),
        ),
        (
            "Event_attributes",
            obj(vec![("xmlns", text("http://schemas.microsoft.com/win/2004/08/events/event"))]),
        ),
    ]);
    let ret = alert_core::flatten::create_recordinfos(&record);
    let expected = "AccessMask: %%1369 ¦ Process: lsass.exe ¦ User: u1".to_string();
    assert_eq!(ret, expected);
}

#[test]
fn test_create_recordinfos2() {
    let record = obj(vec![
        (
            "Event",
            obj(vec![
                (
                    "System",
                    obj(vec![
                        ("EventID", num("4103")),
                        ("Channel", text("PowerShell")),
                        ("Computer", text("DESKTOP-ICHIICHI")),
                    ]),
                ),
                (
                    "EventData",
                    obj(vec![
                        ("Binary", text("hogehoge")),
                        (
                            "Data",
                            arr(vec![
                                text("Data1"),
                                text("DataData2"),
                                text(""),
                                text("DataDataData3"),
                            ]),
                        ),
                    ]),
                ),
                (
                    "EventData_attributes",
                    obj(vec![("xmlns", text("http://schemas.microsoft.com/win/2004/08/events/event"))]),
                ),
            ]),
        ),
        (
            "Event_attributes",
            obj(vec![("xmlns", text("http://schemas.microsoft.com/win/2004/08/events/event"))]),
        ),
    ]);
    let ret = alert_core::flatten::create_recordinfos(&record);
    let expected =
        "Binary: hogehoge ¦ Data:  ¦ Data: Data1 ¦ Data: DataData2 ¦ Data: DataDataData3"
            .to_string();
    assert_eq!(ret, expected);
}

fn event_id_record() -> RecordNode {
    obj(vec![(
        "Event",
        obj(vec![("System", obj(vec![("EventID", num("11111"))]))]),
    )])
}

#[test]
fn test_get_serde_number_to_string() {
    let record = event_id_record();
    let aliases = alert_core::aliases::AliasDirectory::new();
    let n = get_event_value(&"Event.System.EventID".to_string(), &record, &aliases).unwrap();
    assert_eq!(get_serde_number_to_string(&n).unwrap(), "11111".to_string());
}

#[test]
fn test_get_serde_number_serde_string_to_string() {
    let record = obj(vec![(
        "Event",
        obj(vec![("EventData", obj(vec![("ComputerName", text("HayabusaComputer1"))]))]),
    )]);
    let aliases = alert_core::aliases::AliasDirectory::new();
    let n = get_event_value(&"ComputerName".to_string(), &record, &aliases).unwrap();
    assert_eq!(
        get_serde_number_to_string(&n).unwrap(),
        "HayabusaComputer1".to_string()
    );
}

#[test]
fn test_get_serde_number_serde_object_ret_none() {
    let record = obj(vec![(
        "Event",
        obj(vec![("EventData", obj(vec![("ComputerName", text("HayabusaComputer1"))]))]),
    )]);
    let aliases = alert_core::aliases::AliasDirectory::new();
    let n = get_event_value(&"Event.EventData".to_string(), &record, &aliases).unwrap();
    assert!(get_serde_number_to_string(&n).is_none());
}

#[test]
fn test_make_ascii_titlecase() {
    assert_eq!(make_ascii_titlecase("aaaa"), "Aaaa");
    assert_eq!(make_ascii_titlecase("i am Test"), "I am Test");
    assert_eq!(make_ascii_titlecase("β"), "β");
}

#[test]
fn test_check_setting_path() {
    let exist_path = "./test_files".to_string();
    let not_exist_path = "not_exist_path".to_string();
    assert_eq!(
        check_setting_path(&not_exist_path, &"rules".to_string(), false, true).unwrap(),
        "rules"
    );
    assert_eq!(
        check_setting_path(&not_exist_path, &"fake".to_string(), false, true).unwrap(),
        "fake"
    );
    assert_eq!(
        check_setting_path(&exist_path, &"rules".to_string(), true, true).unwrap(),
        "./test_files/rules"
    );
    assert_eq!(
        check_setting_path(&exist_path, &"fake".to_string(), false, true).unwrap(),
        "fake"
    );
    assert!(check_setting_path(&not_exist_path, &"rules".to_string(), false, false).is_none());
}

#[test]
fn test_check_regex_inline() {
    let regexes: Vec<CompiledPattern> = vec![
        CompiledPattern::new("\\\\cvtres\\.exe").unwrap(),
        CompiledPattern::new("^svchost$").unwrap(),
    ];
    assert!(check_regex("C:\\Windows\\cvtres.exe", &regexes));
    assert!(!check_regex("C:\\Windows\\hogehoge.exe", &regexes));
}

#[test]
fn test_check_allowlist_inline() {
    let allowlist: Vec<CompiledPattern> = vec![CompiledPattern::new(
        "^\"C:\\\\Program Files\\\\Google\\\\Update\\\\GoogleUpdate\\.exe\"",
    )
    .unwrap()];
    assert!(check_allowlist(
        "\"C:\\Program Files\\Google\\Update\\GoogleUpdate.exe\"",
        &allowlist
    ));
    assert!(!check_allowlist(
        "\"C:\\Program Files\\Google\\Update\\GoogleUpdate2.exe\"",
        &allowlist
    ));
}

#[test]
fn test_concat_selection_key() {
    let keys = vec!["condition".to_string(), "x".to_string()];
    assert_eq!(
        concat_selection_key(&keys),
        "detection -> selection -> condition -> x"
    );
    assert_eq!(concat_selection_key(&Vec::new()), "detection -> selection");
}

#[test]
fn test_is_target_event_id() {
    let none: Vec<String> = Vec::new();
    assert!(is_target_event_id("4624", &none));
    let some = vec!["1".to_string(), "4624".to_string()];
    assert!(is_target_event_id("4624", &some));
    assert!(!is_target_event_id("9999", &some));
}

#[test]
fn test_get_event_id_key() {
    assert_eq!(alert_core::utils::get_event_id_key(), "Event.System.EventID");
    assert_eq!(
        alert_core::utils::get_event_time(),
        "Event.System.TimeCreated_attributes.SystemTime"
    );
}

#[test]
fn test_get_thread_num() {
    assert_eq!(get_thread_num(&Some(3)), 3);
    assert!(get_thread_num(&None) >= 1);
}

#[test]
fn test_check_rule_config() {
    let r = check_rule_config(false, &Vec::new());
    assert_eq!(
        r.unwrap_err(),
        "The required rules config files were not found. Please download them with --update-rules"
    );
    let all = vec![
        "channel_abbreviations.txt".to_string(),
        "target_event_IDs.txt".to_string(),
        "default_details.txt".to_string(),
        "level_tuning.txt".to_string(),
        "statistics_event_info.txt".to_string(),
        "eventkey_alias.txt".to_string(),
    ];
    assert!(check_rule_config(true, &all).is_ok());
    let partial = vec![
        "channel_abbreviations.txt".to_string(),
        "default_details.txt".to_string(),
        "level_tuning.txt".to_string(),
        "statistics_event_info.txt".to_string(),
    ];
    let r = check_rule_config(true, &partial);
    assert_eq!(
        r.unwrap_err(),
        "Could not find the following config files: target_event_IDs.txt, eventkey_alias.txt\nPlease specify a correct rules config directory.\n"
    );
}

#[test]
fn test_str_time_to_datetime() {
    assert!(alert_core::timefmt::str_time_to_datetime("").is_none());
    assert!(alert_core::timefmt::str_time_to_datetime("not a time").is_none());
    let t = alert_core::timefmt::str_time_to_datetime("1996-02-27T01:05:01Z").unwrap();
    assert_eq!(t, 825_383_101_000_000);
}

#[test]
fn test_format_time_utc() {
    let opts = TimeFormatOptions {
        utc: true,
        rfc_2822: false,
        rfc_3339: true,
        us_time: false,
        us_military_time: false,
        european_time: false,
    };
    let t = alert_core::timefmt::str_time_to_datetime("1996-02-27T01:05:01Z").unwrap();
    assert_eq!(
        alert_core::timefmt::format_time(t, false, &opts),
        "1996-02-27 01:05:01.000000+00:00"
    );
    assert_eq!(alert_core::timefmt::format_time(t, true, &opts), "1996-02-27");
}

#[test]
fn test_value_to_string_scalars() {
    assert_eq!(value_to_string(&text("  padded  ")).unwrap(), "padded");
    assert_eq!(value_to_string(&num("42")).unwrap(), "42");
    assert_eq!(value_to_string(&RecordNode::Bool(true)).unwrap(), "true");
    assert!(value_to_string(&RecordNode::Null).is_none());
    assert!(value_to_string(&arr(vec![])).is_none());
    assert!(value_to_string(&obj(vec![])).is_none());
}

#[test]
fn test_create_rec_info_summary() {
    let record = obj(vec![(
        "Event",
        obj(vec![("EventData", obj(vec![("CommandLine", text("whoami"))]))]),
    )]);
    let mut aliases = alert_core::aliases::AliasDirectory::new();
    aliases.register("CommandLine".to_string(), "Event.EventData.CommandLine".to_string());
    let keys = vec!["CommandLine".to_string(), "NoSuchKey".to_string()];
    let info = create_rec_info(record, "a.evtx".to_string(), &keys, &aliases);
    assert_eq!(info.evtx_filepath, "a.evtx");
    assert_eq!(
        info.data_string,
        "{\"Event\":{\"EventData\":{\"CommandLine\":\"whoami\"}}}"
    );
    assert_eq!(
        info.key_2_value.get("CommandLine").map(|s| s.as_str()),
        Some("whoami")
    );
    assert_eq!(info.key_2_value.len(), 1);
    assert_eq!(
        info.record_information.as_deref(),
        Some("CommandLine: whoami")
    );
}

#[test]
fn test_get_writable_color() {
    let c = Some(termcolor::Color::Green);
    assert!(alert_core::utils::get_writable_color(c, true).is_none());
    assert!(alert_core::utils::get_writable_color(c, false).is_some());
}
