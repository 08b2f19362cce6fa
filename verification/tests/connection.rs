use micro_http::app::{App, Target};
use micro_http::connection::{start, step, Action, Event, State, TIMEOUT_SECS};
use micro_http::error::{ErrorKind, FrameworkError};
use micro_http::http::{Data, Method};

type Handler = fn(Data) -> Data;

fn hello(request: Data) -> Data {
    let mut body = b"hello ".to_vec();
    body.extend_from_slice(request.url.as_bytes());
    Data::from_content("text/plain", body)
}

fn site() -> App<Handler> {
    let mut app: App<Handler> = App::new("127.0.0.1", 8000);
    app.bind("/", Method::GET, hello);
    app
}

/// Serves everything that `input` holds, reading the clock from `clock`, and
/// returns what was written, how often a request was read, and how it ended.
fn serve(app: &App<Handler>, input: &[u8], clock: &[u64]) -> (Vec<u8>, usize, Result<(), FrameworkError>) {
    let mut written = Vec::new();
    let mut at = 0;
    let mut ticks = 0;
    let mut reads = 0;
    let mut request: Option<Data> = None;
    let mut target: Option<Target> = None;
    let mut keep_alive = false;
    let mut failure = None;
    let (mut state, mut action) = start();
    loop {
        let event = match action {
            Action::ReadClock => {
                ticks += 1;
                Event::Clock(clock[ticks - 1])
            }
            Action::ReadRequest => {
                reads += 1;
                let mut data = Data::new();
                match data.parse(&input[at..]) {
                    Ok(n) => {
                        at += n;
                        keep_alive = data.keep_alive();
                        request = Some(data);
                        Event::RequestRead
                    }
                    Err(e) => {
                        failure = Some(e);
                        Event::Failed
                    }
                }
            }
            Action::ChooseTarget => {
                target = Some(app.decide(request.as_ref().unwrap()));
                Event::TargetChosen
            }
            Action::WriteResponse => {
                let response = app.answer(target.take().unwrap(), request.take().unwrap());
                written.extend(response.render());
                Event::ResponseWritten
            }
            Action::CheckKeepAlive => Event::KeepAlive(keep_alive),
            Action::Release => break,
        };
        (state, action) = step(state, event);
    }
    assert_eq!(state, State::Close);
    (written, reads, failure.map_or(Ok(()), Err))
}

const FIRST: &[u8] = b"HTTP/1.1 200 OK\r\ncontent-type: text/plain\r\ncontent-length: 8\r\nhost: 127.0.0.1:8000\r\nserver: micro-http/0.1\r\nconnection: keep-alive\r\n\r\nhello /a";
const SECOND: &[u8] = b"HTTP/1.1 200 OK\r\ncontent-type: text/plain\r\ncontent-length: 8\r\nhost: 127.0.0.1:8000\r\nserver: micro-http/0.1\r\nconnection: keep-alive\r\n\r\nhello /b";
const THIRD: &[u8] = b"HTTP/1.1 200 OK\r\ncontent-type: text/plain\r\ncontent-length: 8\r\nhost: 127.0.0.1:8000\r\nserver: micro-http/0.1\r\n\r\nhello /c";

#[test]
fn keep_alive_loop() {
    let app = site();
    let input = b"GET /a HTTP/1.1\r\nConnection: keep-alive\r\n\r\nGET /b HTTP/1.1\r\nConnection: keep-alive\r\n\r\nGET /c HTTP/1.1\r\n\r\nGET /d HTTP/1.1\r\n\r\n";
    let (written, reads, end) = serve(&app, input, &[0, 1, 2, 3]);
    assert!(end.is_ok());
    assert_eq!(reads, 3);
    let mut expected = Vec::new();
    expected.extend_from_slice(FIRST);
    expected.extend_from_slice(SECOND);
    expected.extend_from_slice(THIRD);
    assert_eq!(written, expected);
}

#[test]
fn connection_without_keep_alive_closes_after_one_response() {
    let app = site();
    let input = b"GET /c HTTP/1.1\r\n\r\nGET /a HTTP/1.1\r\n\r\n";
    let (written, reads, end) = serve(&app, input, &[0]);
    assert!(end.is_ok());
    assert_eq!(reads, 1);
    assert_eq!(written, THIRD);
}

#[test]
fn timeout_closes_a_kept_connection() {
    let app = site();
    let input = b"GET /a HTTP/1.1\r\nConnection: keep-alive\r\n\r\nGET /b HTTP/1.1\r\nConnection: keep-alive\r\n\r\n";
    let (written, reads, end) = serve(&app, input, &[4, 5]);
    assert!(end.is_ok());
    assert_eq!(reads, 1);
    assert_eq!(written, FIRST);
    let (written, reads, end) = serve(&app, input, &[5]);
    assert!(end.is_ok());
    assert_eq!(reads, 0);
    assert!(written.is_empty());
}

#[test]
fn malformed_request_closes_without_a_response() {
    let app = site();
    let (written, reads, end) = serve(&app, b"GET /x HTTP/1.1\r\nno colon here\r\n\r\n", &[0]);
    assert_eq!(end.unwrap_err().kind(), ErrorKind::HeaderParse);
    assert_eq!(reads, 1);
    assert!(written.is_empty());
}

#[test]
fn failure_after_a_response_keeps_what_was_written() {
    let app = site();
    let input = b"GET /a HTTP/1.1\r\nConnection: keep-alive\r\n\r\nbroken";
    let (written, reads, end) = serve(&app, input, &[0, 0]);
    assert_eq!(end.unwrap_err().kind(), ErrorKind::HeaderParse);
    assert_eq!(reads, 2);
    assert_eq!(written, FIRST);
}

#[test]
fn a_connection_starts_by_reading_the_clock() {
    assert_eq!(start(), (State::AwaitRequest, Action::ReadClock));
    assert_eq!(TIMEOUT_SECS, 5);
}

#[test]
fn steps_follow_the_cycle() {
    assert_eq!(step(State::AwaitRequest, Event::Clock(0)), (State::AwaitRequest, Action::ReadRequest));
    assert_eq!(step(State::AwaitRequest, Event::Clock(4)), (State::AwaitRequest, Action::ReadRequest));
    assert_eq!(step(State::AwaitRequest, Event::Clock(5)), (State::Close, Action::Release));
    assert_eq!(step(State::AwaitRequest, Event::Clock(u64::MAX)), (State::Close, Action::Release));
    assert_eq!(step(State::AwaitRequest, Event::RequestRead), (State::Parsed, Action::ChooseTarget));
    assert_eq!(step(State::Parsed, Event::TargetChosen), (State::Routed, Action::WriteResponse));
    assert_eq!(step(State::Routed, Event::ResponseWritten), (State::Responded, Action::CheckKeepAlive));
    assert_eq!(step(State::Responded, Event::KeepAlive(true)), (State::AwaitRequest, Action::ReadClock));
    assert_eq!(step(State::Responded, Event::KeepAlive(false)), (State::Close, Action::Release));
}

#[test]
fn failures_and_unexpected_events_close() {
    let states = [State::AwaitRequest, State::Parsed, State::Routed, State::Responded, State::Close];
    for state in states {
        assert_eq!(step(state, Event::Failed), (State::Close, Action::Release));
    }
    assert_eq!(step(State::Parsed, Event::RequestRead), (State::Close, Action::Release));
    assert_eq!(step(State::Routed, Event::Clock(0)), (State::Close, Action::Release));
    assert_eq!(step(State::Responded, Event::ResponseWritten), (State::Close, Action::Release));
    assert_eq!(step(State::AwaitRequest, Event::KeepAlive(true)), (State::Close, Action::Release));
}

#[test]
fn close_is_final() {
    let events = [
        Event::Clock(0),
        Event::RequestRead,
        Event::TargetChosen,
        Event::ResponseWritten,
        Event::KeepAlive(true),
        Event::KeepAlive(false),
        Event::Failed,
    ];
    for event in events {
        assert_eq!(step(State::Close, event), (State::Close, Action::Release));
    }
}
