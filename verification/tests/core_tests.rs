use alert_core::aliases::AliasDirectory;
use alert_core::csvio::read_csv;
use alert_core::detect::DetectInfo;
use alert_core::maps::StringTable;
use alert_core::message::create_output_filter_config;
use alert_core::message::get;
use alert_core::message::get_default_details;
use alert_core::message::insert_message;
use alert_core::message::parse_message;
use alert_core::message::AlertMessage;
use alert_core::record::RecordNode;
use alert_core::store::AlertStore;

fn text(s: &str) -> RecordNode {
    RecordNode::Text(s.to_string())
}

fn obj(fields: Vec<(&str, RecordNode)>) -> RecordNode {
    RecordNode::Obj(fields.into_iter().map(|(k, v)| (k.to_string(), v)).collect())
}

fn arr(items: Vec<RecordNode>) -> RecordNode {
    RecordNode::Arr(items)
}

fn test_aliases() -> AliasDirectory {
    let mut d = AliasDirectory::new();
    d.register("CommandLine".to_string(), "Event.EventData.CommandLine".to_string());
    d.register("ComputerName".to_string(), "Event.System.Computer".to_string());
    d
}

fn time_attrs() -> RecordNode {
    obj(vec![("SystemTime", text("1996-02-27T01:05:01Z"))])
}

fn empty_detect(eventid: String) -> DetectInfo {
    DetectInfo {
        rulepath: String::new(),
        ruletitle: String::new(),
        level: String::new(),
        computername: String::new(),
        eventid,
        detail: String::new(),
        record_information: None,
        ext_field: linked_hash_map::LinkedHashMap::new(),
    }
}

#[test]
fn test_parse_message() {
    let record = obj(vec![(
        "Event",
        obj(vec![
            ("EventData", obj(vec![("CommandLine", text("parsetest1"))])),
            (
                "System",
                obj(vec![
                    ("Computer", text("testcomputer1")),
                    ("TimeCreated_attributes", time_attrs()),
                ]),
            ),
        ]),
    )]);
    let expected = "commandline:parsetest1 computername:testcomputer1";
    assert_eq!(
        parse_message(
            &record,
            &"commandline:%CommandLine% computername:%ComputerName%".to_string(),
            &test_aliases()
        ),
        expected,
    );
}

#[test]
fn test_parse_message_auto_search() {
    let record = obj(vec![(
        "Event",
        obj(vec![("EventData", obj(vec![("NoAlias", text("no_alias"))]))]),
    )]);
    let expected = "alias:no_alias";
    assert_eq!(
        parse_message(&record, &"alias:%NoAlias%".to_string(), &test_aliases()),
        expected,
    );
}

#[test]
fn test_parse_message_not_exist_key_in_output() {
    let record = obj(vec![(
        "Event",
        obj(vec![
            ("EventData", obj(vec![("CommandLine", text("parsetest2"))])),
            ("System", obj(vec![("TimeCreated_attributes", time_attrs())])),
        ]),
    )]);
    let expected = "NoExistAlias:n/a";
    assert_eq!(
        parse_message(&record, &"NoExistAlias:%NoAliasNoHit%".to_string(), &test_aliases()),
        expected,
    );
}

#[test]
fn test_parse_message_not_exist_value_in_record() {
    let record = obj(vec![(
        "Event",
        obj(vec![
            ("EventData", obj(vec![("CommandLine", text("parsetest3"))])),
            ("System", obj(vec![("TimeCreated_attributes", time_attrs())])),
        ]),
    )]);
    let expected = "commandline:parsetest3 computername:n/a";
    assert_eq!(
        parse_message(
            &record,
            &"commandline:%CommandLine% computername:%ComputerName%".to_string(),
            &test_aliases()
        ),
        expected,
    );
}

fn record_with_data_array() -> RecordNode {
    obj(vec![(
        "Event",
        obj(vec![
            (
                "EventData",
                obj(vec![
                    ("CommandLine", text("parsetest3")),
                    ("Data", arr(vec![text("data1"), text("data2"), text("data3")])),
                ]),
            ),
            ("System", obj(vec![("TimeCreated_attributes", time_attrs())])),
        ]),
    )])
}

#[test]
fn test_parse_message_multiple_no_suffix_in_record() {
    let expected = "commandline:parsetest3 data:[\"data1\",\"data2\",\"data3\"]";
    assert_eq!(
        parse_message(
            &record_with_data_array(),
            &"commandline:%CommandLine% data:%Data%".to_string(),
            &test_aliases()
        ),
        expected,
    );
}

#[test]
fn test_parse_message_multiple_with_suffix_in_record() {
    let expected = "commandline:parsetest3 data:data2";
    assert_eq!(
        parse_message(
            &record_with_data_array(),
            &"commandline:%CommandLine% data:%Data[2]%".to_string(),
            &test_aliases()
        ),
        expected,
    );
}

#[test]
fn test_parse_message_multiple_no_exist_in_record() {
    let expected = "commandline:parsetest3 data:n/a";
    assert_eq!(
        parse_message(
            &record_with_data_array(),
            &"commandline:%CommandLine% data:%Data[0]%".to_string(),
            &test_aliases()
        ),
        expected,
    );
}

fn check_table(expected: &[(&str, &str)], actual: &StringTable) {
    assert_eq!(expected.len(), actual.len());
    for (k, v) in expected {
        assert_eq!(actual.get(k).map(|s| s.as_str()), Some(*v));
    }
}

#[test]
fn test_load_mitre_tactics_log() {
    let contents = "attack.impact,Impact\nxxx,yyy\n".to_string();
    let rows = read_csv(&"mitre_tactics.txt".to_string(), &Some(contents));
    let actual = create_output_filter_config(&rows);
    check_table(&[("attack.impact", "Impact"), ("xxx", "yyy")], &actual);
}

#[test]
fn test_load_abbrevations() {
    let contents = "Security,Sec\nxxx,yyy\n".to_string();
    let rows = read_csv(&"channel_abbreviations.txt".to_string(), &Some(contents));
    let actual = create_output_filter_config(&rows);
    let rows2 = read_csv(
        &"channel_abbreviations.txt".to_string(),
        &Some("Security,Sec\nxxx,yyy\n".to_string()),
    );
    let actual2 = create_output_filter_config(&rows2);
    check_table(&[("security", "Sec"), ("xxx", "yyy")], &actual);
    check_table(&[("security", "Sec"), ("xxx", "yyy")], &actual2);
}

#[test]
fn _get_default_defails() {
    let contents = "Microsoft-Windows-PowerShell,4104,%ScriptBlockText%\nMicrosoft-Windows-Security-Auditing,4624,User: %TargetUserName% | Comp: %WorkstationName% | IP Addr: %IpAddress% | LID: %TargetLogonId% | Process: %ProcessName%\nMicrosoft-Windows-Sysmon,1,Cmd: %CommandLine% | Process: %Image% | User: %User% | Parent Cmd: %ParentCommandLine% | LID: %LogonId% | PID: %ProcessId% | PGUID: %ProcessGuid%\nService Control Manager,7031,Svc: %param1% | Crash Count: %param2% | Action: %param5%\n".to_string();
    let rows = read_csv(&"default_details.txt".to_string(), &Some(contents));
    let actual = get_default_details(&rows);
    check_table(
        &[
            ("Microsoft-Windows-PowerShell_4104", "%ScriptBlockText%"),
            (
                "Microsoft-Windows-Security-Auditing_4624",
                "User: %TargetUserName% | Comp: %WorkstationName% | IP Addr: %IpAddress% | LID: %TargetLogonId% | Process: %ProcessName%",
            ),
            (
                "Microsoft-Windows-Sysmon_1",
                "Cmd: %CommandLine% | Process: %Image% | User: %User% | Parent Cmd: %ParentCommandLine% | LID: %LogonId% | PID: %ProcessId% | PGUID: %ProcessGuid%",
            ),
            ("Service Control Manager_7031", "Svc: %param1% | Crash Count: %param2% | Action: %param5%"),
        ],
        &actual,
    );
}

#[test]
fn test_default_details_malformed_rows_skipped() {
    let contents = "GoodProvider,7031,Svc: %param1%\nBadProvider,notanumber,X\nshort\n".to_string();
    let rows = read_csv(&"default_details.txt".to_string(), &Some(contents));
    let actual = get_default_details(&rows);
    assert_eq!(actual.len(), 1);
    assert_eq!(
        actual.get("GoodProvider_7031").map(|s| s.as_str()),
        Some("Svc: %param1%")
    );
}

#[test]
fn test_read_csv_missing_file() {
    let r = read_csv(&"nofile.txt".to_string(), &None);
    assert_eq!(r.unwrap_err(), "Cannot open file. [file:nofile.txt]");
}

#[test]
fn test_error_message() {
    let input = "TEST!";
    assert_eq!(AlertMessage::error_line(input), "[ERROR] TEST!");
}

#[test]
fn test_warn_message() {
    let input = "TESTWarn!";
    assert_eq!(AlertMessage::warn_line(input), "[WARN] TESTWarn!");
}

#[test]
fn test_insert_message_sequential_bulk() {
    let mut store = AlertStore::new();
    let sample_event_time: i64 = 1_234_567_890_000_000;
    for i in 1..2001 {
        let detect_info = empty_detect(i.to_string());
        insert_message(&mut store, detect_info, sample_event_time);
    }
    assert_eq!(get(&store, sample_event_time).len(), 2000);
    assert_eq!(get(&store, sample_event_time + 1).len(), 0);
    store.clear();
    assert_eq!(get(&store, sample_event_time).len(), 0);
}

#[test]
fn test_insert_preserves_arrival_order_per_caller() {
    let mut store = AlertStore::new();
    let t: i64 = 42;
    for i in 0..10 {
        insert_message(&mut store, empty_detect(i.to_string()), t);
    }
    let got = get(&store, t);
    assert_eq!(got.len(), 10);
    for (i, d) in got.iter().enumerate() {
        assert_eq!(d.eventid, i.to_string());
    }
}

#[test]
fn test_insert_resolves_detail_and_ext_fields() {
    let record = obj(vec![(
        "Event",
        obj(vec![("EventData", obj(vec![("CommandLine", text("whoami"))]))]),
    )]);
    let mut store = AlertStore::new();
    let mut ext = linked_hash_map::LinkedHashMap::new();
    ext.insert("Details".to_string(), "%Details%".to_string());
    ext.insert("Cmd".to_string(), "cmd=%CommandLine%".to_string());
    let detect_info = DetectInfo {
        rulepath: "r.yml".to_string(),
        ruletitle: "t".to_string(),
        level: "high".to_string(),
        computername: "c1".to_string(),
        eventid: "1".to_string(),
        detail: String::new(),
        record_information: None,
        ext_field: linked_hash_map::LinkedHashMap::new(),
    };
    let detect_info = DetectInfo { ext_field: ext, ..detect_info };
    let profiles = vec!["%Timestamp% %Details%".to_string()];
    let mut reserved: Vec<(String, String)> = Vec::new();
    alert_core::message::insert(
        &mut store,
        &test_aliases(),
        &profiles,
        &record,
        "cmdline:%CommandLine%".to_string(),
        detect_info,
        7,
        &mut reserved,
        false,
    );
    let got = get(&store, 7);
    assert_eq!(got.len(), 1);
    assert_eq!(got[0].detail, "cmdline:whoami");
    assert_eq!(reserved, vec![("%Details%".to_string(), "cmdline:whoami".to_string())]);
    let pairs: Vec<(String, String)> = got[0]
        .ext_field
        .iter()
        .map(|(k, v)| (k.clone(), v.clone()))
        .collect();
    assert_eq!(
        pairs,
        vec![
            ("Details".to_string(), "cmdline:whoami".to_string()),
            ("Cmd".to_string(), "cmd=whoami".to_string()),
        ]
    );
}

#[test]
fn test_empty_detail_becomes_dash() {
    let record = obj(vec![("Event", obj(vec![]))]);
    let mut store = AlertStore::new();
    let mut reserved: Vec<(String, String)> = Vec::new();
    alert_core::message::insert(
        &mut store,
        &test_aliases(),
        &Vec::new(),
        &record,
        String::new(),
        empty_detect("5".to_string()),
        9,
        &mut reserved,
        false,
    );
    let got = get(&store, 9);
    assert_eq!(got.len(), 1);
    assert_eq!(got[0].detail, "-");
}

#[test]
fn test_get_event_time_from_record() {
    let record = obj(vec![(
        "Event",
        obj(vec![("System", obj(vec![("TimeCreated_attributes", time_attrs())]))]),
    )]);
    let t = alert_core::message::get_event_time(&record).unwrap();
    // 1996-02-27T01:05:01Z is 825,383,101 seconds after the epoch.
    assert_eq!(t, 825_383_101_000_000);
    let no_time = obj(vec![("Event", obj(vec![]))]);
    assert!(alert_core::message::get_event_time(&no_time).is_none());
}

#[test]
fn test_suffix_first_element() {
    assert_eq!(
        parse_message(
            &record_with_data_array(),
            &"data:%Data[1]%".to_string(),
            &test_aliases()
        ),
        "data:data1",
    );
}

#[test]
fn test_suffix_out_of_range_falls_back() {
    assert_eq!(
        parse_message(
            &record_with_data_array(),
            &"data:%Data[999]%".to_string(),
            &test_aliases()
        ),
        "data:n/a",
    );
}

#[test]
fn test_template_whitespace_collapsed() {
    let record = obj(vec![(
        "Event",
        obj(vec![("EventData", obj(vec![("CommandLine", text("  a\t b\u{3000}c  "))]))]),
    )]);
    assert_eq!(
        parse_message(&record, &"v:%CommandLine%".to_string(), &test_aliases()),
        "v:a b c",
    );
}

#[test]
fn test_flatten_order_independent() {
    let one = obj(vec![(
        "Event",
        obj(vec![(
            "UserData",
            obj(vec![("User", text("u1")), ("Process", text("lsass.exe"))]),
        )]),
    )]);
    let other = obj(vec![(
        "Event",
        obj(vec![(
            "UserData",
            obj(vec![("Process", text("lsass.exe")), ("User", text("u1"))]),
        )]),
    )]);
    assert_eq!(
        alert_core::flatten::create_recordinfos(&one),
        alert_core::flatten::create_recordinfos(&other)
    );
}
