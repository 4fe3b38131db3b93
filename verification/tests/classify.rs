use authmap::classifier::{
    classify, get_ipaddr, get_logline, is_log_accepted, is_log_bad_disconnect, is_log_from_sshd,
    is_log_good_disconnect, is_log_invalid_user, SshEvent,
};
use authmap::grammar::EventKind;

fn tagged(body: &str) -> String {
    format!("Jan 1 00:00:00 host sshd[123]: {}", body)
}

fn classified(line: &str) -> Option<(EventKind, String)> {
    classify(line).map(|event| (event.kind(), event.ip().to_string()))
}

#[test]
fn accepted_line_yields_accepted_event() {
    let line =
        "Jan 1 00:00:00 host sshd[123]: Accepted publickey for alice from 203.0.113.5 port 22 ssh2";
    let event = classify(line).expect("an event");
    assert_eq!(event.kind(), EventKind::Accepted);
    assert_eq!(event.ip(), "203.0.113.5");
}

#[test]
fn accepted_body_with_address_is_accepted() {
    for body in [
        "Accepted password for root from 1.2.3.4 port 22 ssh2",
        "Accepted 1.2.3.4",
        "Acceptedx1.2.3.4",
        "Accepted publickey for bob from 1.2.3.4 port 50000 ssh2: RSA SHA256:abc",
    ] {
        assert_eq!(
            classified(&tagged(body)),
            Some((EventKind::Accepted, "1.2.3.4".to_string())),
            "{}",
            body
        );
    }
}

#[test]
fn disconnect_with_user_is_good_without_is_bad() {
    assert_eq!(
        classified(&tagged("Disconnected from user bob 1.2.3.4 port 22")),
        Some((EventKind::GoodDisconnect, "1.2.3.4".to_string()))
    );
    assert_eq!(
        classified(&tagged("Disconnected from 1.2.3.4 port 22")),
        Some((EventKind::BadDisconnect, "1.2.3.4".to_string()))
    );
    assert_eq!(
        classified(&tagged("Disconnected from authenticating user root 1.2.3.4 port 22 [preauth]")),
        Some((EventKind::BadDisconnect, "1.2.3.4".to_string()))
    );
}

#[test]
fn closed_connection_is_invalid_user() {
    assert_eq!(
        classified(&tagged("Connection closed by 1.2.3.4 port 22")),
        Some((EventKind::InvalidUser, "1.2.3.4".to_string()))
    );
    assert_eq!(
        classified(&tagged("Connection reset by invalid user admin 5.6.7.8 port 22 [preauth]")),
        Some((EventKind::InvalidUser, "5.6.7.8".to_string()))
    );
}

#[test]
fn line_without_tag_is_dropped() {
    for line in [
        "",
        "Jan 1 00:00:00 host cron[99]: Accepted password for root from 1.2.3.4",
        "Accepted password for root from 1.2.3.4 port 22 ssh2",
        "Jan 1 00:00:00 host sshd: Accepted password for root from 1.2.3.4",
        "Jan 1 00:00:00 host sshd[]: Accepted password for root from 1.2.3.4",
        "Jan 1 00:00:00 host sshd[12a]: Accepted password for root from 1.2.3.4",
        "Jan 1 00:00:00 host sshd[12] Accepted password for root from 1.2.3.4",
        "Jan 1 00:00:00 host SSHD[12]: Accepted password for root from 1.2.3.4",
    ] {
        assert!(!is_log_from_sshd(line), "{}", line);
        assert_eq!(get_logline(line), None, "{}", line);
        assert!(classify(line).is_none(), "{}", line);
    }
}

#[test]
fn classify_twice_gives_the_same() {
    for line in [
        tagged("Accepted password for root from 1.2.3.4 port 22 ssh2"),
        tagged("Disconnected from 10.0.0.1 port 22"),
        tagged("nothing of interest 1.2.3.4"),
        "no tag at all".to_string(),
    ] {
        let first = classify(&line);
        let second = classify(&line);
        assert_eq!(first, second);
        assert_eq!(first.clone(), second);
    }
}

#[test]
fn unknown_message_is_dropped() {
    for body in [
        "Failed password for root from 1.2.3.4 port 22 ssh2",
        "pam_unix(sshd:session): session opened for user bob",
        "Accepted",
        "Disconnected from",
        "Disconnected from user",
        "\tAccepted password for root from 1.2.3.4",
        "x Connection closed by 1.2.3.4 port 22",
        "Received disconnect from 1.2.3.4 port 22:11: disconnected by user",
        "reset by invalid user",
    ] {
        assert_eq!(classified(&tagged(body)), None, "{}", body);
    }
}

#[test]
fn message_without_address_is_dropped() {
    for body in [
        "Accepted password for root from somewhere",
        "Accepted password for root from 1.2.3 port 22",
        "Accepted password for root from 1234.5678.1.2",
        "Disconnected from user bob",
        "Connection closed by peer",
        "Connection closed",
    ] {
        assert_eq!(classified(&tagged(body)), None, "{}", body);
    }
    assert_eq!(classified("1.2.3.4 sshd[1]: Accepted password for root"), None);
}

#[test]
fn tag_stage() {
    assert!(is_log_from_sshd("sshd[1]:"));
    assert!(is_log_from_sshd("xsshd[0042]:y"));
    assert!(is_log_from_sshd("sshd[sshd[7]:"));
    assert!(!is_log_from_sshd("sshd[1]"));
    assert!(!is_log_from_sshd("sshd[1] :"));
    assert!(!is_log_from_sshd("sshd[ 1]:"));
    assert!(!is_log_from_sshd("sshd[١]:"));
}

#[test]
fn body_stage() {
    assert_eq!(get_logline("sshd[1]: hello"), Some("hello"));
    assert_eq!(get_logline("Jan 1 host sshd[99]:    hello  world "), Some("hello  world "));
    assert_eq!(get_logline("sshd[1]:hello"), None);
    assert_eq!(get_logline("sshd[1]:"), None);
    assert_eq!(get_logline("sshd[1]: "), None);
    assert_eq!(get_logline("sshd[1]:  "), Some(" "));
    assert_eq!(get_logline("sshd[1]:     "), Some(" "));
    assert_eq!(get_logline("sshd[1]: a\nb"), None);
    assert_eq!(get_logline("sshd[1]: a\n"), None);
    assert_eq!(get_logline("sshd[1]: a\nsshd[2]: b"), Some("b"));
    assert_eq!(get_logline("sshd[1]: a sshd[2]: b"), Some("a sshd[2]: b"));
    assert_eq!(get_logline("sshd[1]:a sshd[2]: b"), Some("b"));
    assert_eq!(get_logline("sshd[1]: naïve café"), Some("naïve café"));
    assert_eq!(get_logline("höst sshd[1]: ü"), Some("ü"));
    assert_eq!(get_logline("sshd[1]: \t x"), Some("\t x"));
}

#[test]
fn kind_stage() {
    assert!(is_log_accepted("Accepted x"));
    assert!(is_log_accepted("Accepted "));
    assert!(!is_log_accepted("Accepted"));
    assert!(!is_log_accepted("accepted x"));
    assert!(!is_log_accepted("Accepted x\n"));
    assert!(!is_log_accepted("Accepted\nx"));
    assert!(!is_log_accepted(" Accepted x"));
    assert!(is_log_good_disconnect("Disconnected from user bob"));
    assert!(!is_log_good_disconnect("Disconnected from user"));
    assert!(!is_log_good_disconnect("Disconnected from bob"));
    assert!(is_log_bad_disconnect("Disconnected from user bob"));
    assert!(is_log_bad_disconnect("Disconnected from bob"));
    assert!(is_log_bad_disconnect("Disconnected fromx"));
    assert!(!is_log_bad_disconnect("Disconnected from"));
    assert!(is_log_invalid_user("Connection closed"));
    assert!(is_log_invalid_user("Connection closed by 1.2.3.4"));
    assert!(is_log_invalid_user("Connection closed\nby"));
    assert!(!is_log_invalid_user("a Connection closed by 1.2.3.4"));
    assert!(is_log_invalid_user("Connection reset by invalid user x"));
    assert!(is_log_invalid_user("reset by invalid user x"));
    assert!(!is_log_invalid_user("Connection reset by invalid user"));
    assert!(!is_log_invalid_user("reset by invalid user x\n"));
    assert!(is_log_invalid_user("reset by invalid user\nreset by invalid user x"));
    assert!(!is_log_invalid_user("Connection reset by peer"));
    assert!(!is_log_invalid_user(""));
}

#[test]
fn address_stage() {
    assert_eq!(get_ipaddr("from 1.2.3.4 port 22"), Some("1.2.3.4"));
    assert_eq!(get_ipaddr("1.2.3.4"), Some("1.2.3.4"));
    assert_eq!(get_ipaddr("255.255.255.255"), Some("255.255.255.255"));
    assert_eq!(get_ipaddr("999.999.999.999"), Some("999.999.999.999"));
    assert_eq!(get_ipaddr("from 1.2.3.4567 port"), Some("1.2.3.456"));
    assert_eq!(get_ipaddr("12345.6.7.8"), Some("345.6.7.8"));
    assert_eq!(get_ipaddr("1.2.3.4.5.6"), Some("1.2.3.4"));
    assert_eq!(get_ipaddr("1.2.3.x 5.6.7.8"), Some("5.6.7.8"));
    assert_eq!(get_ipaddr("1.2.3. 9.8.7.6 5.4.3.2"), Some("9.8.7.6"));
    assert_eq!(get_ipaddr("1.2345.6.7.8.9"), Some("345.6.7.8"));
    assert_eq!(get_ipaddr("a1.2.3.4b"), Some("1.2.3.4"));
    assert_eq!(get_ipaddr("1.2.3"), None);
    assert_eq!(get_ipaddr("1.2.3."), None);
    assert_eq!(get_ipaddr("1..2.3.4"), None);
    assert_eq!(get_ipaddr("1234.1234.1234.1234"), None);
    assert_eq!(get_ipaddr(""), None);
    assert_eq!(get_ipaddr("١.٢.٣.٤"), None);
    assert_eq!(get_ipaddr("é 10.20.30.40 é"), Some("10.20.30.40"));
}

#[test]
fn address_is_taken_from_the_body() {
    assert_eq!(
        classified("9.9.9.9 sshd[1]: Accepted password for root from 1.2.3.4 port 22"),
        Some((EventKind::Accepted, "1.2.3.4".to_string()))
    );
    assert_eq!(
        classified("sshd[1]: Accepted password for root from 1.2.3.4 port 22 via 5.6.7.8"),
        Some((EventKind::Accepted, "1.2.3.4".to_string()))
    );
    assert_eq!(
        classified("日本語 sshd[1]: Accepted für 1.2.3.4"),
        Some((EventKind::Accepted, "1.2.3.4".to_string()))
    );
}

#[test]
fn spaces_after_the_tag_are_no_part_of_the_body() {
    assert_eq!(
        classified("sshd[1]:     Accepted password for root from 1.2.3.4"),
        Some((EventKind::Accepted, "1.2.3.4".to_string()))
    );
}

#[test]
fn first_pattern_wins() {
    assert_eq!(
        classified(&tagged("Accepted Connection closed reset by invalid user x 1.2.3.4")),
        Some((EventKind::Accepted, "1.2.3.4".to_string()))
    );
    assert_eq!(
        classified(&tagged("Disconnected from user reset by invalid user x 1.2.3.4")),
        Some((EventKind::GoodDisconnect, "1.2.3.4".to_string()))
    );
    assert_eq!(
        classified(&tagged("Disconnected from 1.2.3.4: reset by invalid user x")),
        Some((EventKind::BadDisconnect, "1.2.3.4".to_string()))
    );
}

#[test]
fn event_holds_a_dotted_quad_only() {
    let event = SshEvent::new(EventKind::BadDisconnect, "10.0.0.1").expect("a dotted quad");
    assert_eq!(event.kind(), EventKind::BadDisconnect);
    assert_eq!(event.ip(), "10.0.0.1");
    assert_eq!(event.clone(), event);
    for text in ["", "10.0.0", "10.0.0.1 ", " 10.0.0.1", "10.0.0.1234", "1.2.3.4.5", "a.b.c.d"] {
        assert!(SshEvent::new(EventKind::Accepted, text).is_none(), "{:?}", text);
    }
}
