use afire::http::server_sent_events::Event;

#[test]
fn test_sse_event_format() {
    let event = Event::new("event");
    assert_eq!(event.to_string(), "event: event\ndata: \n\n");

    let event = Event::new("update").id(1).data("Hello");
    assert_eq!(event.to_string(), "id: 1\nevent: update\ndata: Hello\n\n");
}
