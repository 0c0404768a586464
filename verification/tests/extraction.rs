use iface_extract::csv_escape;
use iface_extract::extract_bssids;
use iface_extract::extract_interfaces;
use iface_extract::normalize_mac;
use iface_extract::InterfaceParser;

#[test]
fn test_parse_interface_output() {
    let output = r#"
Name     MAC addr           Mode   State  Chan(Width) VLAN  Radio Hive SSID
------   ---------------    -----  -----  ----------- ----  ----- ---- ----
wifi0    00:11:22:33:44:55  AP     up     11(20)      1     wifi0 hive1 TestSSID
wifi1    AA:BB:CC:DD:EE:FF  AP     up     36(80)      10    wifi1 hive2 Corp
"#;

    let parser = InterfaceParser::new();
    let entries = parser.parse(output);

    assert_eq!(entries.len(), 2);
    assert_eq!(entries[0].name, "wifi0");
    assert_eq!(entries[0].mac, "00:11:22:33:44:55");
    assert_eq!(entries[0].ssid, "TestSSID");
    assert_eq!(entries[1].name, "wifi1");
    assert_eq!(entries[1].mac, "AA:BB:CC:DD:EE:FF");
}

#[test]
fn test_extract_bssids() {
    let output = "BSSID: 00:11:22:33:44:55\nSome other line\nbssid AA:BB:CC:DD:EE:FF";
    let bssids = extract_bssids(output);

    assert!(bssids.contains(&"00:11:22:33:44:55".to_string()));
    assert!(bssids.contains(&"AA:BB:CC:DD:EE:FF".to_string()));
}

#[test]
fn normalize_is_idempotent_on_samples() {
    let samples = [
        "0011.2233.4455",
        "001122334455",
        "00-11-22-33-44-55",
        "00:11:22:33:44:55",
        "aa:bb:cc:dd:ee:ff",
        "xyz",
        "00:11:22",
        "",
        "not an address at all",
    ];
    for s in samples {
        let once = normalize_mac(s);
        let twice = normalize_mac(&once);
        assert_eq!(twice, once);
    }
}

#[test]
fn normalize_accepts_all_common_formats() {
    assert_eq!(normalize_mac("0011.2233.4455"), "00:11:22:33:44:55");
    assert_eq!(normalize_mac("001122334455"), "00:11:22:33:44:55");
    assert_eq!(normalize_mac("00-11-22-33-44-55"), "00:11:22:33:44:55");
    assert_eq!(normalize_mac("00:11:22:33:44:55"), "00:11:22:33:44:55");
    assert_eq!(normalize_mac("aabb.ccdd.eeff"), "AA:BB:CC:DD:EE:FF");
}

#[test]
fn normalize_degrades_gracefully() {
    assert_eq!(normalize_mac("xyz"), "XYZ");
    assert_eq!(normalize_mac("00:11:22"), "00:11:22");
    assert_eq!(normalize_mac("00:11:22:33:44:55:66"), "00:11:22:33:44:55:66");
    assert_eq!(normalize_mac(""), "");
}

#[test]
fn combinator_output_has_no_duplicate_addresses() {
    let output = "wifi0 00:11:22:33:44:55 AP up 11(20) 1 wifi0 hive1 Net\n\
                  BSSID: 00:11:22:33:44:55\n\
                  bssid 00:11:22:33:44:55 and bssid AA:BB:CC:DD:EE:FF\n\
                  BSSID AA:BB:CC:DD:EE:FF again";
    let entries = extract_interfaces(output);
    let macs: Vec<String> = entries.iter().map(|e| e.mac.clone()).collect();
    for i in 0..macs.len() {
        for j in (i + 1)..macs.len() {
            assert_ne!(macs[i], macs[j]);
        }
    }
    assert_eq!(macs.len(), 2);
}

#[test]
fn tabular_entries_precede_fallback_entries() {
    let output = "BSSID: AA:BB:CC:DD:EE:FF\n\
                  wifi0 00:11:22:33:44:55 AP up 11(20) 1 wifi0 hive1 Net";
    let entries = extract_interfaces(output);
    assert_eq!(entries.len(), 2);
    // The tabular record comes first although its line comes second.
    assert_eq!(entries[0].name, "wifi0");
    assert_eq!(entries[0].mac, "00:11:22:33:44:55");
    assert_eq!(entries[1].name, "");
    assert_eq!(entries[1].mac, "AA:BB:CC:DD:EE:FF");
}

#[test]
fn header_separator_and_blank_lines_yield_nothing() {
    let output = "\n\
                  Name     MAC addr           Mode   State  Chan(Width) VLAN  Radio Hive SSID\n\
                  ------   ---------------    -----  -----  ----------- ----  ----- ---- ----\n\
                  \t  \n\
                  Name a b c d e f g h\n\
                  - a b c d e f g h\n";
    let parser = InterfaceParser::new();
    assert_eq!(parser.parse(output).len(), 0);
    assert_eq!(extract_interfaces(output).len(), 0);
}

#[test]
fn nine_field_lines_yield_full_records() {
    let output = "Name     MAC addr           Mode   State  Chan(Width) VLAN  Radio Hive SSID\n\
                  ------   ---------------    -----  -----  ----------- ----  ----- ---- ----\n\
                  wifi0    00:11:22:33:44:55  AP     up     11(20)      1     wifi0 hive1 TestSSID\n\
                  wifi1    AA:BB:CC:DD:EE:FF  AP     up     36(80)      10    wifi1 hive2 Corp\n";
    let entries = extract_interfaces(output);
    assert_eq!(entries.len(), 2);
    assert_eq!(entries[0].name, "wifi0");
    assert_eq!(entries[0].mac, "00:11:22:33:44:55");
    assert_eq!(entries[0].mode, "AP");
    assert_eq!(entries[0].state, "up");
    assert_eq!(entries[0].channel, "11(20)");
    assert_eq!(entries[0].vlan, "1");
    assert_eq!(entries[0].radio, "wifi0");
    assert_eq!(entries[0].hive, "hive1");
    assert_eq!(entries[0].ssid, "TestSSID");
    assert_eq!(entries[1].name, "wifi1");
    assert_eq!(entries[1].mac, "AA:BB:CC:DD:EE:FF");
    assert_eq!(entries[1].ssid, "Corp");
}

#[test]
fn keyword_lines_yield_minimal_records() {
    let output = "BSSID: 00:11:22:33:44:55\nSome other line\nbssid AA:BB:CC:DD:EE:FF";
    let entries = extract_interfaces(output);
    assert_eq!(entries.len(), 2);
    let mut macs: Vec<String> = entries.iter().map(|e| e.mac.clone()).collect();
    macs.sort();
    assert_eq!(macs, vec!["00:11:22:33:44:55".to_string(), "AA:BB:CC:DD:EE:FF".to_string()]);
    for e in &entries {
        assert_eq!(e.name, "");
        assert_eq!(e.mode, "");
        assert_eq!(e.state, "");
        assert_eq!(e.channel, "");
        assert_eq!(e.vlan, "");
        assert_eq!(e.radio, "");
        assert_eq!(e.hive, "");
        assert_eq!(e.ssid, "");
    }
}

#[test]
fn tabular_record_wins_over_keyword_mention() {
    let output = "wifi0 00:11:22:33:44:55 AP up 11(20) 1 wifi0 hive1 Net\n\
                  BSSID: 00:11:22:33:44:55";
    let entries = extract_interfaces(output);
    assert_eq!(entries.len(), 1);
    assert_eq!(entries[0].name, "wifi0");
    assert_eq!(entries[0].mac, "00:11:22:33:44:55");
    assert_eq!(entries[0].ssid, "Net");
}

#[test]
fn empty_input_yields_empty_output() {
    assert_eq!(extract_interfaces("").len(), 0);
    assert_eq!(extract_bssids("").len(), 0);
}

#[test]
fn lowercase_keyword_addresses_are_canonicalized() {
    let output = "bssid aa:bb:cc:dd:ee:ff";
    let bssids = extract_bssids(output);
    assert_eq!(bssids, vec!["AA:BB:CC:DD:EE:FF".to_string()]);
}

#[test]
fn malformed_field_counts_are_skipped() {
    // Eight fields, ten fields, a letter outside the address class, and a
    // line starting with whitespace: none of these matches the layout.
    let output = "wifi0 00:11:22:33:44:55 AP up 11(20) 1 wifi0 hive1\n\
                  wifi0 00:11:22:33:44:55 AP up 11(20) 1 wifi0 hive1 Net extra\n\
                  wifi0 0g:11:22:33:44:55 AP up 11(20) 1 wifi0 hive1 Net\n";
    assert_eq!(extract_interfaces(output).len(), 0);
}

#[test]
fn dotted_address_in_table_is_canonicalized() {
    let output = "wifi0 0011.2233.4455 AP up 11(20) 1 wifi0 hive1 Net";
    let entries = extract_interfaces(output);
    assert_eq!(entries.len(), 1);
    assert_eq!(entries[0].mac, "00:11:22:33:44:55");
}

#[test]
fn extract_macs_projects_addresses() {
    let output = "wifi0 00:11:22:33:44:55 AP up 11(20) 1 wifi0 hive1 Net\n\
                  wifi1 AA:BB:CC:DD:EE:FF AP up 36(80) 10 wifi1 hive2 Corp";
    let parser = InterfaceParser::default();
    let entries = parser.parse(output);
    let macs = parser.extract_macs(&entries);
    assert_eq!(macs, vec!["00:11:22:33:44:55".to_string(), "AA:BB:CC:DD:EE:FF".to_string()]);
}

#[test]
fn extract_bssids_matches_extract_interfaces() {
    let output = "wifi0 00:11:22:33:44:55 AP up 11(20) 1 wifi0 hive1 Net\n\
                  BSSID: AA:BB:CC:DD:EE:FF";
    let entries = extract_interfaces(output);
    let bssids = extract_bssids(output);
    assert_eq!(bssids.len(), entries.len());
    for (b, e) in bssids.iter().zip(entries.iter()) {
        assert_eq!(b, &e.mac);
    }
}

#[test]
fn csv_escape_passes_plain_fields_through() {
    assert_eq!(csv_escape("plain"), "plain");
    assert_eq!(csv_escape(""), "");
    assert_eq!(csv_escape("00:11:22:33:44:55"), "00:11:22:33:44:55");
}

#[test]
fn csv_escape_quotes_special_fields() {
    assert_eq!(csv_escape("a,b"), "\"a,b\"");
    assert_eq!(csv_escape("he said \"hi\""), "\"he said \"\"hi\"\"\"");
    assert_eq!(csv_escape("line\nbreak"), "\"line\nbreak\"");
    assert_eq!(csv_escape("line\rbreak"), "\"line\rbreak\"");
}
