use whoisit::owner::search_for_port;

fn owner(port: u16, listing: &[u8]) -> Option<String> {
    search_for_port(port, listing.to_vec())
}

const TWO_RECORDS: &[u8] = b"Lalice\nn127.0.0.1:4000->127.0.0.1:80\nLbob\nn127.0.0.1:5000->127.0.0.1:80\n";

#[test]
fn finds_each_owner_in_two_records() {
    assert_eq!(owner(5000, TWO_RECORDS), Some("bob".to_string()));
    assert_eq!(owner(4000, TWO_RECORDS), Some("alice".to_string()));
    assert_eq!(owner(9999, TWO_RECORDS), None);
}

#[test]
fn empty_listing_has_no_owner() {
    assert_eq!(owner(80, b""), None);
    assert_eq!(owner(0, b"\n"), None);
}

#[test]
fn connection_before_any_login_line_has_no_owner() {
    let listing = b"n10.0.0.1:4000->10.0.0.2:80\nLalice\nn10.0.0.1:4001->10.0.0.2:80\n";
    assert_eq!(owner(4000, listing), None);
    assert_eq!(owner(4001, listing), Some("alice".to_string()));
}

#[test]
fn first_matching_connection_wins() {
    let listing = b"Lalice\nn10.0.0.1:4000->10.0.0.2:80\nLbob\nn10.0.0.3:4000->10.0.0.2:80\n";
    assert_eq!(owner(4000, listing), Some("alice".to_string()));
    let listing = b"n10.0.0.1:4000->10.0.0.2:80\nLbob\nn10.0.0.3:4000->10.0.0.2:80\n";
    assert_eq!(owner(4000, listing), None);
}

#[test]
fn owner_covers_all_connections_up_to_the_next_login_line() {
    let listing = b"Lalice\nn[::1]:1->[::1]:80\nn[::1]:2->[::1]:80\nn[::1]:3->[::1]:80\nLbob\nn[::1]:4->[::1]:80\n";
    assert_eq!(owner(1, listing), Some("alice".to_string()));
    assert_eq!(owner(3, listing), Some("alice".to_string()));
    assert_eq!(owner(4, listing), Some("bob".to_string()));
}

#[test]
fn later_login_line_replaces_the_earlier() {
    let listing = b"Lalice\nLbob\nn10.0.0.1:22->10.0.0.2:80\n";
    assert_eq!(owner(22, listing), Some("bob".to_string()));
}

#[test]
fn other_lines_are_ignored() {
    let listing = b"p1234\nLalice\nf7\nTST=ESTABLISHED\n\nn10.0.0.1:22->10.0.0.2:80\n";
    assert_eq!(owner(22, listing), Some("alice".to_string()));
    let listing = b"Lalice\nx10.0.0.1:22->10.0.0.2:80\n";
    assert_eq!(owner(22, listing), None);
    let listing = b"Lalice\n n10.0.0.1:22->10.0.0.2:80\n";
    assert_eq!(owner(22, listing), None);
}

#[test]
fn marker_in_a_login_line_is_no_match() {
    let listing = b"Lalice\nL:22->\nn10.0.0.1:23->10.0.0.2:80\n";
    assert_eq!(owner(22, listing), None);
    assert_eq!(owner(23, listing), Some(":22->".to_string()));
}

#[test]
fn port_is_matched_as_text() {
    let listing = b"Lalice\nn10.0.0.1:8080->10.0.0.2:80\n";
    assert_eq!(owner(80, listing), None);
    assert_eq!(owner(808, listing), None);
    assert_eq!(owner(8080, listing), Some("alice".to_string()));
    let listing = b"Lalice\nn10.0.0.1:080->10.0.0.2:80\n";
    assert_eq!(owner(80, listing), None);
    let listing = b"Lalice\nn10.0.0.1:80 ->10.0.0.2:80\n";
    assert_eq!(owner(80, listing), None);
}

#[test]
fn remote_port_is_not_the_local_port() {
    let listing = b"Lalice\nn10.0.0.1:4000->10.0.0.2:80\n";
    assert_eq!(owner(80, listing), None);
}

#[test]
fn login_name_is_trimmed() {
    assert_eq!(owner(1, b"L  alice \t\nn:1->\n"), Some("alice".to_string()));
    assert_eq!(owner(1, b"Lalice\r\nn:1->\r\n"), Some("alice".to_string()));
    assert_eq!(owner(1, b"Lal ice\nn:1->\n"), Some("al ice".to_string()));
    assert_eq!(owner(1, b"L\nn:1->\n"), Some(String::new()));
    assert_eq!(owner(1, "Lrené\u{a0}\nn:1->\n".as_bytes()), Some("rené".to_string()));
}

#[test]
fn last_line_need_not_end_in_a_line_feed() {
    assert_eq!(owner(1, b"Lalice\nn:1->"), Some("alice".to_string()));
    assert_eq!(owner(1, b"Lalice"), None);
}

#[test]
fn truncated_listing_has_no_owner() {
    assert_eq!(owner(4000, b"Lalice\nn127.0.0.1:40"), None);
    assert_eq!(owner(4000, b"Lalice\nn127.0.0.1:4000-"), None);
    assert_eq!(owner(4000, b"Lalice\n"), None);
}

#[test]
fn line_of_another_kind_that_is_not_utf8_is_passed_over() {
    let listing = b"\xff\nLalice\nn127.0.0.1:4000->127.0.0.1:80\n".to_vec();
    assert_eq!(search_for_port(4000, listing), Some("alice".to_string()));
    let mut listing = b"Lalice\n".to_vec();
    listing.extend_from_slice(&[b'p', 0xff, 0xfe, b'\n']);
    listing.extend_from_slice(b"n10.0.0.1:22->10.0.0.2:80\n");
    assert_eq!(search_for_port(22, listing), Some("alice".to_string()));
    let listing = b"Lalice\n\x80\x80\n\xc3\n\xf8:22->\nn10.0.0.1:22->10.0.0.2:80\n".to_vec();
    assert_eq!(search_for_port(22, listing), Some("alice".to_string()));
}

#[test]
fn line_that_is_not_utf8_after_the_match_does_no_harm() {
    let mut listing = b"Lalice\nn10.0.0.1:22->10.0.0.2:80\n".to_vec();
    listing.extend_from_slice(&[0xc3, 0x28, b'\n']);
    assert_eq!(search_for_port(22, listing.clone()), Some("alice".to_string()));
    assert_eq!(search_for_port(23, listing), None);
}

#[test]
fn login_line_whose_name_is_not_utf8_names_nobody() {
    assert_eq!(owner(1, b"L\xff\nn:1->\n"), None);
    assert_eq!(owner(1, b"La\xc3\nn:1->\n"), None);
    let listing = vec![b'L', b'a', 0xc3, b'\n', 0xa9, b'\n', b'n', b':', b'1', b'-', b'>'];
    assert_eq!(search_for_port(1, listing), None);
}

#[test]
fn earlier_owner_is_not_carried_across_a_login_line_that_names_nobody() {
    assert_eq!(owner(1, b"Lalice\nL\xff\nn:1->\n"), None);
    assert_eq!(owner(1, b"Lalice\nn:2->\nL\xff\xfe\nn:1->\n"), None);
    assert_eq!(owner(2, b"Lalice\nn:2->\nL\xff\xfe\nn:1->\n"), Some("alice".to_string()));
}

#[test]
fn login_line_after_one_that_names_nobody_names_the_owner() {
    assert_eq!(owner(1, b"L\xff\nLbob\nn:1->\n"), Some("bob".to_string()));
    assert_eq!(owner(1, b"L\xff\nn:2->\nLbob\nn:1->\n"), Some("bob".to_string()));
    assert_eq!(owner(2, b"L\xff\nn:2->\nLbob\nn:1->\n"), None);
}

#[test]
fn connection_line_is_matched_on_its_bytes() {
    assert_eq!(owner(1, b"Lalice\nn\xff:1->\n"), Some("alice".to_string()));
    assert_eq!(owner(1, b"Lalice\nn\xff:2->\nLbob\nn:1->\n"), Some("bob".to_string()));
    assert_eq!(owner(1, "Lalice\nn\u{e9}:1->\u{2192}\n".as_bytes()), Some("alice".to_string()));
    assert_eq!(owner(1, "Lalice\nn:\u{ff11}->\n".as_bytes()), None);
}

#[test]
fn every_port_is_found_under_its_own_marker() {
    for port in [0u16, 1, 9, 10, 99, 100, 113, 999, 1000, 9999, 10000, 65535] {
        let listing = format!("Lroot\nn192.0.2.1:{port}->192.0.2.2:1\n");
        assert_eq!(owner(port, listing.as_bytes()), Some("root".to_string()));
        assert_eq!(owner(port.wrapping_add(1), listing.as_bytes()), None);
    }
}
