use crawl_core::chain::BasicMiddleware;
use crawl_core::dispatcher::{dispatch_product, middleware_task, timeout_means_finished, DispatchTask};
use crawl_core::product::{HttpMethod, Item, MidProduct, Product};
use crawl_core::request::{CallBack, Request};
use crawl_core::response::Response;
use crawl_core::scheduler::{LoopStep, ReadyQueue, Scheduler, StartAction, TransferOutcome};

fn seed_url(i: usize) -> String {
    format!("http://seed{}.example/", i)
}

#[test]
fn three_seeds_get_three_distinct_tokens_and_callbacks() {
    let mut core = Scheduler::new(2);
    let mut queue = ReadyQueue::new();
    let mids: Vec<BasicMiddleware> = Vec::new();
    let bodies = [vec![1u8], vec![2u8, 2], vec![3u8, 3, 3]];

    for i in 0..3usize {
        let req = Request::new(&seed_url(i), CallBack::new(i));
        match dispatch_product(Product::NewRequest(req)) {
            DispatchTask::RunMiddlewares(r) => middleware_task(&mids, r, &mut queue),
            _ => panic!("a new request must go to the middleware chain"),
        }
    }

    let actions = core.admit_ready(&mut queue);
    assert_eq!(actions.len(), 3);
    assert_eq!(core.in_flight(), 3);
    let mut tokens = Vec::new();
    for (i, a) in actions.into_iter().enumerate() {
        match a {
            StartAction::Register(cfg, token) => {
                assert_eq!(cfg.url, seed_url(i));
                assert_eq!(cfg.method, HttpMethod::Get);
                assert!(!tokens.contains(&token), "tokens must be pairwise distinct");
                tokens.push(token);
            }
            StartAction::Invoke(..) => panic!("a pending request must register a transfer"),
        }
    }

    let mut callbacks_run = 0;
    for (i, token) in tokens.into_iter().enumerate() {
        let out = core.complete_transfer(
            token,
            TransferOutcome::Success {
                body: bodies[i].clone(),
                headers: vec![String::from("Server: t")],
                redirect: None,
            },
        );
        let (cb, resp) = out.expect("a successful transfer yields its callback");
        assert_eq!(cb.into_handle(), i, "each callback gets its own response");
        assert_eq!(resp.data(), bodies[i].as_slice());
        assert_eq!(resp.get_url(), seed_url(i));
        callbacks_run += 1;
    }
    assert_eq!(callbacks_run, 3);
    assert_eq!(core.in_flight(), 0);
}

#[test]
fn ignored_request_registers_nothing_and_crawl_still_ends() {
    let mut core = Scheduler::new(1);
    let mut queue = ReadyQueue::new();
    let mids = vec![BasicMiddleware::Drop];

    let req = Request::new("http://gone.example/", CallBack::new(5));
    match dispatch_product(Product::NewRequest(req)) {
        DispatchTask::RunMiddlewares(r) => middleware_task(&mids, r, &mut queue),
        _ => panic!("a new request must go to the middleware chain"),
    }
    assert_eq!(queue.len(), 0, "an ignored request never reaches the ready queue");

    let actions = core.admit_ready(&mut queue);
    assert!(actions.is_empty());
    assert_eq!(core.in_flight(), 0);

    // The dispatcher times out over an idle pool, marks the crawl finished,
    // and the loop stops once nothing is in flight.
    assert!(timeout_means_finished(0, 0));
    core.mark_finished();
    assert_eq!(core.io_step(0), LoopStep::Stop);
}

#[test]
fn failed_transfer_runs_no_callback_and_frees_its_token() {
    let mut core = Scheduler::new(1);
    let mut queue = ReadyQueue::new();
    let mids: Vec<BasicMiddleware> = Vec::new();
    let req = Request::new("http://flaky.example/", CallBack::new(8));
    middleware_task(&mids, req, &mut queue);

    let actions = core.admit_ready(&mut queue);
    assert_eq!(actions.len(), 1);
    let token = match &actions[0] {
        StartAction::Register(_, t) => *t,
        StartAction::Invoke(..) => panic!("a pending request must register a transfer"),
    };
    assert_eq!(core.in_flight(), 1);

    let out = core.complete_transfer(
        token,
        TransferOutcome::Failure { error: String::from("could not resolve host") },
    );
    assert!(out.is_none(), "a failed transfer yields no callback");
    assert_eq!(core.in_flight(), 0, "the token leaves the table exactly once");

    core.mark_finished();
    assert_eq!(core.io_step(0), LoopStep::Stop);
}

#[test]
fn admission_respects_pool_headroom() {
    let mut core = Scheduler::new(1); // headroom: 2 transfers
    let mut queue = ReadyQueue::new();
    for i in 0..5usize {
        queue.push(MidProduct::PendingRequest(Request::new(&seed_url(i), CallBack::new(i))));
    }

    let first = core.admit_ready(&mut queue);
    assert_eq!(first.len(), 2, "one iteration admits at most the headroom");
    assert_eq!(core.in_flight(), 2);
    assert_eq!(queue.len(), 3);

    let second = core.admit_ready(&mut queue);
    assert!(second.is_empty(), "no headroom, nothing admitted");
    assert_eq!(queue.len(), 3);

    let t = match &first[0] {
        StartAction::Register(_, t) => *t,
        StartAction::Invoke(..) => panic!("a pending request must register a transfer"),
    };
    core.complete_transfer(t, TransferOutcome::Failure { error: String::from("x") });
    let third = core.admit_ready(&mut queue);
    assert_eq!(third.len(), 1, "freed headroom admits again, oldest first");
}

#[test]
fn ignore_entry_is_a_no_op_at_admission() {
    let mut core = Scheduler::new(1);
    let mut queue = ReadyQueue::new();
    queue.push(MidProduct::Ignore);
    let actions = core.admit_ready(&mut queue);
    assert!(actions.is_empty());
    assert_eq!(core.in_flight(), 0);
    assert_eq!(queue.len(), 0);
}

#[test]
fn ready_response_bypasses_the_engine() {
    let mut core = Scheduler::new(1);
    let mut queue = ReadyQueue::new();
    queue.push(MidProduct::ReadyResponse(Response::new("local://cache/"), CallBack::new(42)));
    let actions = core.admit_ready(&mut queue);
    assert_eq!(actions.len(), 1);
    match actions.into_iter().next().unwrap() {
        StartAction::Invoke(cb, resp) => {
            assert_eq!(cb.into_handle(), 42);
            assert_eq!(resp.get_url(), "local://cache/");
        }
        StartAction::Register(..) => panic!("a ready response must not register a transfer"),
    }
    assert_eq!(core.in_flight(), 0, "no transfer, no token");

    // The next real registration still draws the first token.
    queue.push(MidProduct::PendingRequest(Request::new("http://x.example/", CallBack::new(1))));
    let actions = core.admit_ready(&mut queue);
    match &actions[0] {
        StartAction::Register(_, token) => assert_eq!(*token, 0),
        StartAction::Invoke(..) => panic!("a pending request must register a transfer"),
    }
}

#[test]
fn redirect_target_becomes_the_response_url() {
    let mut core = Scheduler::new(1);
    let mut queue = ReadyQueue::new();
    queue.push(MidProduct::PendingRequest(Request::new("http://old.example/", CallBack::new(3))));
    let actions = core.admit_ready(&mut queue);
    let token = match &actions[0] {
        StartAction::Register(_, t) => *t,
        StartAction::Invoke(..) => panic!("a pending request must register a transfer"),
    };
    let out = core.complete_transfer(
        token,
        TransferOutcome::Success {
            body: Vec::new(),
            headers: Vec::new(),
            redirect: Some(String::from("http://new.example/")),
        },
    );
    let (_, resp) = out.unwrap();
    assert_eq!(resp.get_url(), "http://new.example/");
}

#[test]
fn loop_decisions_follow_flag_and_in_flight_count() {
    let mut core = Scheduler::new(1);
    assert_eq!(core.io_step(2), LoopStep::Work);
    assert_eq!(core.io_step(0), LoopStep::Backoff, "not finished: idle, do not stop");
    assert!(!timeout_means_finished(1, 0));
    assert!(!timeout_means_finished(0, 2));
    assert!(timeout_means_finished(0, 0));
    core.mark_finished();
    assert_eq!(core.io_step(1), LoopStep::Work, "still in flight: keep working");
    assert_eq!(core.io_step(0), LoopStep::Stop);
}

#[test]
fn finished_product_and_item_product_route_to_their_tasks() {
    match dispatch_product(Product::Finished) {
        DispatchTask::SetFinished => {}
        _ => panic!("the finished signal must set the flag"),
    }
    let mut item = Item::new();
    item.insert(String::from("k"), crawl_core::product::Value::Nil);
    match dispatch_product(Product::ExtractedItem(item)) {
        DispatchTask::RunPipelines(it) => assert_eq!(it.len(), 1),
        _ => panic!("an extracted item must go to the pipelines"),
    }
}
