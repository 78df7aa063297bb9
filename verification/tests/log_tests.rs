use message_relay::log::log_entry;

#[test]
fn entry_is_time_colon_description() {
    assert_eq!(
        log_entry("2024-05-01 12:00:00.000 +02:00", "Native messaging host started"),
        "2024-05-01 12:00:00.000 +02:00: Native messaging host started\n"
    );
}

#[test]
fn entry_of_nothing_is_the_separator_alone() {
    assert_eq!(log_entry("", ""), ": \n");
    assert_eq!(log_entry("t", ""), "t: \n");
    assert_eq!(log_entry("", "d"), ": d\n");
}

#[test]
fn entry_keeps_the_description_as_it_is() {
    assert_eq!(
        log_entry("12:00", "Received: {\"action\":\"ping\",\"data\":{}}"),
        "12:00: Received: {\"action\":\"ping\",\"data\":{}}\n"
    );
}
