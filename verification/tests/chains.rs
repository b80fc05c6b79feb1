use crawl_core::chain::{run_middlewares, run_pipelines, BasicMiddleware, BasicPipeline};
use crawl_core::product::{Item, MidProduct, Value};
use crawl_core::request::{CallBack, Request};

#[test]
fn empty_middleware_chain_leaves_request_pending() {
    let mids: Vec<BasicMiddleware> = Vec::new();
    let req = Request::new("http://x.example/", CallBack::new(1));
    match run_middlewares(&mids, req) {
        MidProduct::PendingRequest(r) => {
            assert_eq!(r.url, "http://x.example/");
            assert_eq!(r.callback.into_handle(), 1);
        }
        _ => panic!("an empty chain must leave the request pending"),
    }
}

#[test]
fn middleware_chain_stops_at_first_non_pending() {
    // In [A, B, C] with B dropping the request, C never weighs in: the
    // output is exactly B's, the same as with C absent.
    let with_c = vec![BasicMiddleware::Pass, BasicMiddleware::Drop, BasicMiddleware::Pass];
    let without_c = vec![BasicMiddleware::Pass, BasicMiddleware::Drop];
    let out_with = run_middlewares(&with_c, Request::new("http://x.example/", CallBack::new(2)));
    let out_without =
        run_middlewares(&without_c, Request::new("http://x.example/", CallBack::new(2)));
    assert!(matches!(out_with, MidProduct::Ignore));
    assert!(matches!(out_without, MidProduct::Ignore));
}

#[test]
fn pipeline_drops_empty_item() {
    let pipes = vec![BasicPipeline::DropEmpty];
    let out = run_pipelines(&pipes, Item::new());
    assert!(out.is_none(), "an empty item must be consumed, no terminal report");
}

#[test]
fn empty_pipeline_reports_item_terminal() {
    let pipes: Vec<BasicPipeline> = Vec::new();
    let out = run_pipelines(&pipes, Item::new());
    assert!(out.is_some(), "with no stages the item survives and is reported once");
}

#[test]
fn pipeline_stops_at_first_drop() {
    // In [A, B, C] with B dropping the empty item, C never runs and nothing
    // reaches the terminal report.
    let pipes = vec![BasicPipeline::Keep, BasicPipeline::DropEmpty, BasicPipeline::Keep];
    assert!(run_pipelines(&pipes, Item::new()).is_none());
    // An item that survives every stage comes out exactly once.
    let mut item = Item::new();
    item.insert(String::from("k"), Value::Int(7));
    let out = run_pipelines(&pipes, item);
    assert_eq!(out.expect("a non-empty item survives").len(), 1);
}
