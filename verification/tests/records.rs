use crawl_core::product::{HttpMethod, Item, MidProduct, TransferConfig, Value};
use crawl_core::request::{CallBack, Request};
use crawl_core::response::Response;
use crawl_core::scheduler::next_token;

#[test]
fn simple() {
    assert!(true);
}

#[test]
fn response_accessors() {
    let mut r = Response::new("http://a.example/");
    assert_eq!(r.get_url(), "http://a.example/");
    assert_eq!(r.len(), 0);
    assert!(r.get_headers().is_empty());
    r.push_header(String::from("Content-Type: text/html"));
    r.append_data(&[104, 105]);
    assert_eq!(r.len(), 2);
    assert_eq!(r.data(), [104, 105].as_slice());
    assert_eq!(r.get_headers(), [String::from("Content-Type: text/html")].as_slice());
    r.set_url("http://b.example/");
    assert_eq!(r.get_url(), "http://b.example/");
    assert_eq!(r.len(), 2);
}

#[test]
fn response_from_parts_keeps_everything() {
    let r = Response::from_parts(
        String::from("http://c.example/"),
        vec![String::from("Server: x")],
        vec![0, 1, 2],
    );
    assert_eq!(r.get_url(), "http://c.example/");
    assert_eq!(r.get_headers(), [String::from("Server: x")].as_slice());
    assert_eq!(r.data(), [0, 1, 2].as_slice());
}

#[test]
fn request_holds_url_and_callback() {
    let req = Request::new("http://x.example/", CallBack::new(9));
    assert_eq!(req.url, "http://x.example/");
    assert_eq!(req.callback.into_handle(), 9);
}

#[test]
fn item_entries_grow_in_order() {
    let mut item = Item::new();
    assert!(item.is_empty());
    assert_eq!(item.len(), 0);
    item.insert(String::from("title"), Value::Str(String::from("a page")));
    item.insert(String::from("size"), Value::Int(3));
    assert!(!item.is_empty());
    assert_eq!(item.len(), 2);
}

#[test]
fn value_default_is_nil() {
    assert_eq!(Value::default(), Value::Nil);
}

#[test]
fn nested_values_compare_by_content() {
    let mut inner = Item::new();
    inner.insert(String::from("bits"), Value::Flt(1u64 << 62));
    let a = Value::Dict(Box::new(inner));
    let mut inner2 = Item::new();
    inner2.insert(String::from("bits"), Value::Flt(1u64 << 62));
    let b = Value::Dict(Box::new(inner2));
    assert_eq!(a, b);
    assert_ne!(a, Value::Dat(vec![1, 2]));
}

#[test]
fn midproduct_default_is_ignore() {
    assert!(matches!(MidProduct::default(), MidProduct::Ignore));
}

#[test]
fn default_transfer_is_plain_get() {
    let cfg = TransferConfig::default_get(String::from("http://x.example/"));
    assert_eq!(cfg.url, "http://x.example/");
    assert_eq!(cfg.method, HttpMethod::Get);
    assert!(cfg.headers.is_empty());
    assert!(cfg.proxy.is_none());
}

#[test]
fn tokens_increase_one_by_one() {
    let mut counter: usize = 0;
    assert_eq!(next_token(&mut counter), 0);
    assert_eq!(next_token(&mut counter), 1);
    assert_eq!(next_token(&mut counter), 2);
    assert_eq!(counter, 3);
}
