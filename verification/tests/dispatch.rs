use std::cell::Cell;
use std::rc::Rc;

use minnow::App;
use minnow::chain::{Chain, Handler, Middleware};
use minnow::method::Method;
use minnow::request::Request;
use minnow::response::Response;

#[derive(Clone)]
struct Counters {
    handler_runs: Rc<Cell<u32>>,
    mw_runs: Rc<Cell<u32>>,
}

impl Counters {
    fn new() -> Counters {
        Counters { handler_runs: Rc::new(Cell::new(0)), mw_runs: Rc::new(Cell::new(0)) }
    }
}

#[derive(Clone)]
enum TestHandler {
    Fixed(&'static str),
    EchoParam(&'static str),
    Count,
}

impl Handler<Counters> for TestHandler {
    fn call(&self, req: Request<Counters>) -> Response {
        match self {
            TestHandler::Fixed(body) => Response::ok(body.to_string()),
            TestHandler::EchoParam(name) => match req.params().find(name) {
                Some(v) => Response::ok(v.clone()),
                None => Response::new(500, String::new()),
            },
            TestHandler::Count => {
                req.state().handler_runs.set(req.state().handler_runs.get() + 1);
                Response::ok("counted".to_string())
            }
        }
    }
}

#[derive(Clone)]
enum TestMiddleware {
    AppendAfter(&'static str),
    ShortCircuit(&'static str),
    CountAndPass,
}

impl<H: Handler<Counters>> Middleware<Counters, H> for TestMiddleware {
    fn call(
        &self,
        req: Request<Counters>,
        next: Chain<'_, Counters, H, Self>,
    ) -> Response {
        match self {
            TestMiddleware::AppendAfter(marker) => {
                let mut resp = next.call(req);
                resp.body = format!("{}{}", resp.body, marker);
                resp
            }
            TestMiddleware::ShortCircuit(body) => Response::new(403, body.to_string()),
            TestMiddleware::CountAndPass => {
                req.state().mw_runs.set(req.state().mw_runs.get() + 1);
                next.call(req)
            }
        }
    }
}

type TestApp = App<Counters, TestHandler, TestMiddleware>;

#[test]
fn get_root_yields_ok_body() {
    let mut app: TestApp = App::build(Counters::new());
    app.get("/", TestHandler::Fixed("OK")).unwrap();
    let resp = app.dispatch(Method::Get, "/");
    assert_eq!(resp.status, 200);
    assert_eq!(resp.body, "OK");
}

#[test]
fn echo_handler_sees_extracted_param() {
    let mut app: TestApp = App::build(Counters::new());
    app.get("/items/:id", TestHandler::EchoParam("id")).unwrap();
    let resp = app.dispatch(Method::Get, "/items/7");
    assert_eq!(resp.status, 200);
    assert_eq!(resp.body, "7");
}

#[test]
fn unmatched_dispatch_yields_not_found() {
    let mut app: TestApp = App::build(Counters::new());
    app.get("/", TestHandler::Fixed("OK")).unwrap();
    let missing_path = app.dispatch(Method::Get, "/nowhere");
    assert_eq!(missing_path.status, 404);
    assert_eq!(missing_path.body, "Not Found");
    let missing_method = app.dispatch(Method::Post, "/");
    assert_eq!(missing_method.status, 404);
    assert_eq!(missing_method.body, "Not Found");
}

#[test]
fn middleware_markers_unwind_innermost_first() {
    let mut app: TestApp = App::build(Counters::new());
    app.get("/", TestHandler::Fixed("H")).unwrap();
    app.with(TestMiddleware::AppendAfter("A"));
    app.with(TestMiddleware::AppendAfter("B"));
    let resp = app.dispatch(Method::Get, "/");
    // The first-registered middleware is outermost, so its marker lands
    // last as the call stack unwinds: markers appear in order B then A.
    assert_eq!(resp.body, "HBA");
    assert_eq!(resp.status, 200);
}

#[test]
fn short_circuit_stops_downstream_work() {
    let counters = Counters::new();
    let mut app: TestApp = App::build(counters.clone());
    app.get("/guarded", TestHandler::Count).unwrap();
    app.with(TestMiddleware::ShortCircuit("denied"));
    app.with(TestMiddleware::CountAndPass);
    let resp = app.dispatch(Method::Get, "/guarded");
    assert_eq!(resp.status, 403);
    assert_eq!(resp.body, "denied");
    assert_eq!(counters.mw_runs.get(), 0);
    assert_eq!(counters.handler_runs.get(), 0);
}

#[test]
fn passing_middleware_reaches_handler() {
    let counters = Counters::new();
    let mut app: TestApp = App::build(counters.clone());
    app.get("/guarded", TestHandler::Count).unwrap();
    app.with(TestMiddleware::CountAndPass);
    let resp = app.dispatch(Method::Get, "/guarded");
    assert_eq!(resp.status, 200);
    assert_eq!(resp.body, "counted");
    assert_eq!(counters.mw_runs.get(), 1);
    assert_eq!(counters.handler_runs.get(), 1);
}

#[test]
fn state_is_shared_across_dispatches() {
    let counters = Counters::new();
    let mut app: TestApp = App::build(counters.clone());
    app.get("/hit", TestHandler::Count).unwrap();
    app.dispatch(Method::Get, "/hit");
    app.dispatch(Method::Get, "/hit");
    app.dispatch(Method::Get, "/hit");
    assert_eq!(counters.handler_runs.get(), 3);
}

#[test]
fn request_exposes_method_and_url() {
    let req: Request<Counters> = Request::from_http(
        Method::Post,
        "/a/b".to_string(),
        Counters::new(),
        minnow::params::Params::empty(),
    );
    assert_eq!(*req.method(), Method::Post);
    assert_eq!(req.url(), "/a/b");
    assert!(req.params().is_empty());
}
