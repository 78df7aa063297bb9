use message_relay::exchange::Exchange;

#[test]
fn first_frame_goes_straight_through() {
    let mut exchange = Exchange::new();
    assert!(!exchange.is_awaiting());
    assert_eq!(exchange.submit(b"one".to_vec()), Some(b"one".to_vec()));
    assert!(exchange.is_awaiting());
    assert_eq!(exchange.held_count(), 0);
}

#[test]
fn later_frames_wait_for_the_reply() {
    let mut exchange = Exchange::new();
    assert_eq!(exchange.submit(b"one".to_vec()), Some(b"one".to_vec()));
    assert_eq!(exchange.submit(b"two".to_vec()), None);
    assert_eq!(exchange.submit(b"three".to_vec()), None);
    assert_eq!(exchange.held_count(), 2);
    assert_eq!(exchange.reply_received(), Some(b"two".to_vec()));
    assert!(exchange.is_awaiting());
    assert_eq!(exchange.submit(b"four".to_vec()), None);
    assert_eq!(exchange.reply_received(), Some(b"three".to_vec()));
    assert_eq!(exchange.reply_received(), Some(b"four".to_vec()));
    assert_eq!(exchange.held_count(), 0);
    assert!(exchange.is_awaiting());
    assert_eq!(exchange.reply_received(), None);
    assert!(!exchange.is_awaiting());
    assert_eq!(exchange.submit(b"five".to_vec()), Some(b"five".to_vec()));
}

#[test]
fn reply_that_nobody_waits_for_changes_nothing() {
    let mut exchange = Exchange::new();
    assert_eq!(exchange.reply_received(), None);
    assert!(!exchange.is_awaiting());
    assert_eq!(exchange.held_count(), 0);
    assert_eq!(exchange.submit(vec![]), Some(vec![]));
}

#[test]
fn frames_leave_in_the_order_in_which_they_came() {
    let mut exchange = Exchange::new();
    let mut out = Vec::new();
    for n in 0u8..20 {
        out.extend(exchange.submit(vec![n]));
        if n % 3 == 0 {
            out.extend(exchange.reply_received());
        }
    }
    while exchange.is_awaiting() {
        out.extend(exchange.reply_received());
    }
    assert_eq!(out, (0u8..20).map(|n| vec![n]).collect::<Vec<_>>());
}
