use micro_http::app::App;
use micro_http::error::Error;
use micro_http::request::Method;
use micro_http::request::Request;
use micro_http::response::Response;
use micro_http::status::Status;

type Handler = fn(Request) -> Response;

fn lines(text: &[&str]) -> Vec<String> {
    text.iter().map(|line| line.to_string()).collect()
}

fn body(text: &str) -> Response {
    let mut response = Response::new();
    response.with_content(text.to_owned());
    response
}

fn home(_request: Request) -> Response {
    body("home")
}

fn about(_request: Request) -> Response {
    body("about")
}

fn create(_request: Request) -> Response {
    let mut response = body("created");
    response.with_status(Status::Created);
    response
}

fn echo(request: Request) -> Response {
    let mut response = Response::new();
    response.with_content(format!(
        "{} {} {}",
        request.get_path(),
        request.get_header("X-Name").unwrap_or("nobody"),
        request.get_route_key()
    ));
    response
}

fn app() -> App<&'static str, Handler> {
    let mut app: App<&'static str, Handler> = App::new("127.0.0.1:0");
    app.add(Method::GET, "/", home).unwrap();
    app.add(Method::GET, "/about", about).unwrap();
    app.add(Method::POST, "/", create).unwrap();
    app.add(Method::GET, "/echo", echo).unwrap();
    app
}

fn answer(app: &App<&'static str, Handler>, line: &str) -> String {
    app.dispatch(Request::new(&lines(&[line])).unwrap()).data()
}

#[test]
fn new_app_has_no_routes() {
    let app: App<&str, Handler> = App::new("localhost:8080");
    assert_eq!(*app.get_addr(), "localhost:8080");
    assert_eq!(app.get_routes().len(), 0);
}

#[test]
fn routes_are_kept_under_their_route_keys() {
    let app = app();
    assert_eq!(app.get_routes().len(), 4);
    assert!(app.get_routes().contains_key("GET / HTTP/1.1"));
    assert!(app.get_routes().contains_key("GET /about HTTP/1.1"));
    assert!(app.get_routes().contains_key("POST / HTTP/1.1"));
    assert!(app.get_routes().contains_key("GET /echo HTTP/1.1"));
    assert!(!app.get_routes().contains_key("GET /"));
    assert!(!app.get_routes().contains_key("/"));
}

#[test]
fn registered_route_reaches_its_handler() {
    let app = app();
    assert_eq!(answer(&app, "GET / HTTP/1.1"), "HTTP/1.1 200 OK\r\nContent-Length: 4\r\n\r\nhome");
    assert_eq!(
        answer(&app, "GET /about HTTP/1.1"),
        "HTTP/1.1 200 OK\r\nContent-Length: 5\r\n\r\nabout"
    );
    assert_eq!(
        answer(&app, "POST / HTTP/1.1"),
        "HTTP/1.1 201 Created\r\nContent-Length: 7\r\n\r\ncreated"
    );
}

#[test]
fn handler_gets_the_request() {
    let app = app();
    let request =
        Request::new(&lines(&["GET /echo HTTP/1.1", "X-Name: somebody", ""])).unwrap();
    assert_eq!(
        app.dispatch(request).data(),
        "HTTP/1.1 200 OK\r\nContent-Length: 33\r\n\r\n/echo somebody GET /echo HTTP/1.1"
    );
}

#[test]
fn unmatched_route_is_not_found() {
    let app = app();
    let not_found = "HTTP/1.1 404 Not Found\r\nContent-Length: 9\r\n\r\nNot found";
    assert_eq!(answer(&app, "GET /missing HTTP/1.1"), not_found);
    assert_eq!(answer(&app, "DELETE / HTTP/1.1"), not_found);
    assert_eq!(answer(&app, "GET /about/ HTTP/1.1"), not_found);
    assert_eq!(answer(&app, "GET /About HTTP/1.1"), not_found);
    assert_eq!(answer(&app, "GET /about?x=1 HTTP/1.1"), not_found);
    assert_eq!(answer(&app, "GET  HTTP/1.1"), not_found);
}

#[test]
fn other_version_is_not_found() {
    let app = app();
    let not_found = "HTTP/1.1 404 Not Found\r\nContent-Length: 9\r\n\r\nNot found";
    assert_eq!(answer(&app, "GET / HTTP/1.0"), not_found);
    assert_eq!(answer(&app, "GET / http/1.1"), not_found);
}

#[test]
fn empty_app_answers_not_found() {
    let app: App<&str, Handler> = App::new("localhost:8080");
    let mut response = app.dispatch(Request::new(&lines(&["GET / HTTP/1.1"])).unwrap());
    assert_eq!(response.data(), "HTTP/1.1 404 Not Found\r\nContent-Length: 9\r\n\r\nNot found");
}

#[test]
fn route_without_leading_slash_is_refused() {
    let mut app = app();
    let before = app.get_routes().len();
    assert_eq!(app.add(Method::GET, "no-leading-slash", home), Err(Error::InvalidRoute));
    assert_eq!(app.get_routes().len(), before);
    assert!(!app.get_routes().contains_key("GET no-leading-slash HTTP/1.1"));
    assert_eq!(app.add(Method::GET, "", home), Err(Error::InvalidRoute));
    assert_eq!(app.add(Method::GET, " /", home), Err(Error::InvalidRoute));
    assert_eq!(app.add(Method::GET, "\u{e9}/", home), Err(Error::InvalidRoute));
    assert_eq!(app.get_routes().len(), before);
    assert_eq!(*app.get_addr(), "127.0.0.1:0");
}

#[test]
fn last_registration_of_a_route_wins() {
    let mut app = app();
    assert_eq!(app.add(Method::GET, "/", about), Ok(()));
    assert_eq!(app.get_routes().len(), 4);
    assert_eq!(answer(&app, "GET / HTTP/1.1"), "HTTP/1.1 200 OK\r\nContent-Length: 5\r\n\r\nabout");
    assert_eq!(
        answer(&app, "POST / HTTP/1.1"),
        "HTTP/1.1 201 Created\r\nContent-Length: 7\r\n\r\ncreated"
    );
}

#[test]
fn connection_is_answered_with_the_wire_text() {
    let app = app();
    assert_eq!(
        app.handle_connection(&lines(&["GET /about HTTP/1.1", "Host: localhost", "", "body"])),
        Ok("HTTP/1.1 200 OK\r\nContent-Length: 5\r\n\r\nabout".to_owned())
    );
    assert_eq!(
        app.handle_connection(&lines(&["GET /nowhere HTTP/1.1", "Host: localhost"])),
        Ok("HTTP/1.1 404 Not Found\r\nContent-Length: 9\r\n\r\nNot found".to_owned())
    );
}

#[test]
fn malformed_connection_gets_no_answer() {
    let app = app();
    assert_eq!(app.handle_connection(&Vec::new()), Err(Error::MalformedRequest));
    assert_eq!(app.handle_connection(&lines(&["GET /about"])), Err(Error::MalformedRequest));
    assert_eq!(
        app.handle_connection(&lines(&["GET /about HTTP/1.1", "Host"])),
        Err(Error::MalformedRequest)
    );
    assert_eq!(
        app.handle_connection(&lines(&["BREW /about HTTP/1.1"])),
        Err(Error::MalformedRequest)
    );
}

#[test]
fn closures_can_be_handlers() {
    let greeting = String::from("captured");
    let mut app = App::new(8080u16);
    app.add(Method::GET, "/", move |_request: Request| {
        let mut response = Response::new();
        response.with_content(greeting.clone());
        response
    })
    .unwrap();
    assert_eq!(*app.get_addr(), 8080);
    assert_eq!(
        app.handle_connection(&lines(&["GET / HTTP/1.1"])),
        Ok("HTTP/1.1 200 OK\r\nContent-Length: 8\r\n\r\ncaptured".to_owned())
    );
}
