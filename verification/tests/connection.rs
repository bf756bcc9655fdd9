use http_queue_lite::connection::{Connection, Stage};
use http_queue_lite::handler::handle_client;
use http_queue_lite::remote::RemoteAddr;
use http_queue_lite::store::TaskStore;

fn peer() -> RemoteAddr {
    RemoteAddr { ip: "127.0.0.1".to_string(), port: 4000 }
}

fn run(input: &[u8], store: &mut TaskStore) -> Option<Vec<u8>> {
    let mut connection = Connection::new();
    let mut next = 0;
    let mut written: Option<Vec<u8>> = None;
    loop {
        match connection.stage() {
            Stage::Parsing => {
                if next < input.len() {
                    connection.receive(input[next]);
                    next += 1;
                } else {
                    connection.abandon();
                }
            }
            Stage::Dispatching => connection.dispatch(peer(), store),
            Stage::Responding => {
                written = connection.outgoing();
                connection.sent();
            }
            Stage::Closed => return written,
        }
    }
}

#[test]
fn connection_goes_through_its_stages() {
    let mut store = TaskStore::new();
    let mut connection = Connection::new();
    assert_eq!(connection.stage(), Stage::Parsing);
    assert_eq!(connection.outgoing(), None);
    for byte in b"GET /add?job HTTP/1.0\r\nHost: x\r\n".iter() {
        connection.receive(*byte);
        assert_eq!(connection.stage(), Stage::Parsing);
    }
    connection.dispatch(peer(), &mut store);
    assert_eq!(connection.stage(), Stage::Parsing);
    assert_eq!(store.len(), 0);
    connection.receive(13);
    assert_eq!(connection.stage(), Stage::Dispatching);
    connection.receive(10);
    assert_eq!(connection.stage(), Stage::Dispatching);
    assert_eq!(connection.outgoing(), None);
    connection.sent();
    assert_eq!(connection.stage(), Stage::Dispatching);
    connection.dispatch(peer(), &mut store);
    assert_eq!(connection.stage(), Stage::Responding);
    assert_eq!(store.len(), 1);
    connection.dispatch(peer(), &mut store);
    assert_eq!(store.len(), 1);
    assert_eq!(
        connection.outgoing(),
        Some(b"HTTP/1.0 200 OK\r\nServer: HTTPQ\r\nContent-Length: 8\r\n\r\nadded ok".to_vec())
    );
    connection.sent();
    assert_eq!(connection.stage(), Stage::Closed);
    assert_eq!(connection.outgoing(), None);
    connection.receive(b'G');
    assert_eq!(connection.stage(), Stage::Closed);
}

#[test]
fn connection_answers_as_the_handler_does() {
    let inputs: [&[u8]; 6] = [
        b"GET /add?task=build HTTP/1.0\r\nHost: x\r\n\r\n",
        b"GET /get?_=1 HTTP/1.0\r\n\r\n",
        b"GET /get HTTP/1.0\r\n\r\n",
        b"GET /unknown HTTP/1.0\r\n\r\n",
        b"GET\r\n\r\n",
        b"GET /add?cut HTTP/1.0\r\nHost:",
    ];
    let mut by_connection = TaskStore::new();
    let mut by_handler = TaskStore::new();
    for input in inputs.iter() {
        let written = run(input, &mut by_connection);
        let text = handle_client(input, peer(), &mut by_handler);
        assert_eq!(written, text.map(|t| t.into_bytes()));
        assert_eq!(by_connection.len(), by_handler.len());
    }
}

#[test]
fn malformed_request_line_is_answered_at_once() {
    let mut store = TaskStore::new();
    let mut connection = Connection::new();
    for byte in b"BROKEN\r".iter() {
        connection.receive(*byte);
    }
    assert_eq!(connection.stage(), Stage::Dispatching);
    connection.dispatch(peer(), &mut store);
    assert_eq!(connection.stage(), Stage::Responding);
    assert_eq!(
        connection.outgoing(),
        Some(b"HTTP/1.0 400 Bad Request\r\nServer: HTTPQ\r\nContent-Length: 11\r\n\r\nBad Request".to_vec())
    );
}

#[test]
fn abandoned_connection_is_closed_and_changes_nothing() {
    let mut store = TaskStore::new();
    let mut connection = Connection::new();
    for byte in b"GET /add?x HTTP/1.0\r\n".iter() {
        connection.receive(*byte);
    }
    connection.abandon();
    assert_eq!(connection.stage(), Stage::Closed);
    connection.dispatch(peer(), &mut store);
    assert_eq!(store.len(), 0);
    assert_eq!(connection.outgoing(), None);
}
