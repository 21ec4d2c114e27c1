use secure_p2p_msg::ops::Metrics;

#[test]
fn metrics_render_increments() {
    let mut m = Metrics::default();
    m.sent_messages += 2;
    m.delivered_messages += 1;
    m.failed_messages += 3;
    m.received_messages += 4;

    let out = m.render_prometheus();
    assert!(out.contains("pigeon_sent_messages 2"));
    assert!(out.contains("pigeon_delivered_messages 1"));
    assert!(out.contains("pigeon_failed_messages 3"));
    assert!(out.contains("pigeon_received_messages 4"));
}

#[test]
fn metrics_render_exact_text() {
    let m = Metrics {
        sent_messages: 0,
        delivered_messages: 10,
        failed_messages: 18446744073709551615,
        received_messages: 907,
    };
    let expected = "# HELP pigeon_sent_messages Total messages attempted to send\n\
# TYPE pigeon_sent_messages counter\n\
pigeon_sent_messages 0\n\
# HELP pigeon_delivered_messages Total messages acknowledged as delivered\n\
# TYPE pigeon_delivered_messages counter\n\
pigeon_delivered_messages 10\n\
# HELP pigeon_failed_messages Total send failures\n\
# TYPE pigeon_failed_messages counter\n\
pigeon_failed_messages 18446744073709551615\n\
# HELP pigeon_received_messages Total messages received\n\
# TYPE pigeon_received_messages counter\n\
pigeon_received_messages 907\n";
    assert_eq!(m.render_prometheus(), expected);
}

#[test]
fn metrics_start_at_zero() {
    let m = Metrics::new();
    assert_eq!(m, Metrics::default());
    assert_eq!(m.sent_messages, 0);
    assert_eq!(m.received_messages, 0);
}
