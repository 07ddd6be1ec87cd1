use pixelrs::codec::{encode, SerializableErase, Update};
use pixelrs::session::{connect_should_retry, Client, MAX_FAILED_SENT_ON_QUEUE};

fn erase(i: i32) -> Update {
    Update::Erase(SerializableErase { abs_x: i, abs_y: 0 })
}

fn queued(client: &Client) -> Vec<Vec<u8>> {
    client.pending().iter().cloned().collect()
}

#[test]
fn publish_appends_the_encoded_record() {
    let mut client = Client::new(&"127.0.0.1:9000".to_string());
    assert_eq!(client.addr, "127.0.0.1:9000");
    client.publish(erase(1));
    client.publish(erase(2));
    assert_eq!(queued(&client), vec![encode(&erase(1)), encode(&erase(2))]);
}

#[test]
fn successful_flush_empties_the_queue() {
    let mut client = Client::new(&"h:1".to_string());
    for i in 0..3 {
        client.publish(erase(i));
    }
    client.broadcast_client_updates(3, false);
    assert!(client.pending().is_empty());
}

#[test]
fn failed_write_requeues_at_the_tail_in_order() {
    let mut client = Client::new(&"h:1".to_string());
    for i in 0..4 {
        client.publish(erase(i));
    }
    // Messages 0 and 1 went out, writing 2 failed.
    client.broadcast_client_updates(2, true);
    assert_eq!(queued(&client), vec![encode(&erase(3)), encode(&erase(2))]);
}

#[test]
fn queue_is_trimmed_to_the_cap_keeping_the_newest() {
    let mut client = Client::new(&"h:1".to_string());
    for i in 0..20 {
        client.publish(erase(i));
    }
    client.broadcast_client_updates(0, true);
    assert_eq!(MAX_FAILED_SENT_ON_QUEUE, 16);
    let mut expected: Vec<Vec<u8>> = (5..20).map(|i| encode(&erase(i))).collect();
    expected.push(encode(&erase(0)));
    assert_eq!(queued(&client), expected);
}

#[test]
fn repeated_failures_never_exceed_the_cap() {
    let mut client = Client::new(&"h:1".to_string());
    for round in 0..10 {
        for i in 0..7 {
            client.publish(erase(round * 100 + i));
        }
        client.broadcast_client_updates(0, true);
        assert!(client.pending().len() <= MAX_FAILED_SENT_ON_QUEUE);
    }
    assert_eq!(client.pending().len(), MAX_FAILED_SENT_ON_QUEUE);
}

#[test]
fn connecting_is_retried_up_to_the_bound() {
    assert!(connect_should_retry(0));
    assert!(connect_should_retry(4));
    assert!(!connect_should_retry(5));
    assert!(!connect_should_retry(9));
}
