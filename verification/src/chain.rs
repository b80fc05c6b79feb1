//! The two ordered, short-circuiting plugin chains: request middleware and
//! item pipelines.

use vstd::prelude::*;

use crate::product::{Item, MidProduct};
use crate::request::Request;

verus! {

/// One middleware stage: a transform over requests.
///
/// A chain of stages runs left to right, each on the request still pending;
/// the first outcome other than `PendingRequest` stops the chain and is its
/// final output. An implementation states what it returns in
/// `spec_transform` and proves that `transform` matches it.
pub trait Middleware: Sized {
    spec fn spec_transform(&self, req: Request) -> MidProduct;

    fn transform(&self, req: Request) -> (out: MidProduct)
        ensures
            out == self.spec_transform(req),
    ;
}

/// One pipeline stage: a transform over extracted items.
///
/// A chain of stages runs left to right while the item is still `Some`; a
/// stage returning `None` drops the item and stops the chain.
pub trait PipelineStage: Sized {
    spec fn spec_transform(&self, item: Item) -> Option<Item>;

    fn transform(&self, item: Item) -> (out: Option<Item>)
        ensures
            out == self.spec_transform(item),
    ;
}

/// The outcome of running a middleware chain on a request.
///
/// The chain starts from `PendingRequest(req)`; while the running value is a
/// `PendingRequest`, the next stage transforms its request; any other
/// variant is final.
pub open spec fn run_middleware_chain<M: Middleware>(mids: Seq<M>, req: Request) -> MidProduct
    decreases mids.len(),
{
    if mids.len() == 0 {
        MidProduct::PendingRequest(req)
    } else {
        match mids[0].spec_transform(req) {
            MidProduct::PendingRequest(r) => run_middleware_chain(mids.skip(1), r),
            out => out,
        }
    }
}

/// The outcome of running a pipeline chain on a running value.
///
/// `None` is absorbing: a dropped item stays dropped, later stages never
/// run. An item still `Some` after the last stage is the chain's terminal
/// output.
pub open spec fn run_pipeline_chain<P: PipelineStage>(pipes: Seq<P>, item: Option<Item>) -> Option<
    Item,
>
    decreases pipes.len(),
{
    if pipes.len() == 0 || item is None {
        item
    } else {
        run_pipeline_chain(pipes.skip(1), pipes[0].spec_transform(item->0))
    }
}

/// Run a middleware chain on a request, left to right, stopping at the
/// first outcome other than `PendingRequest`.
pub fn run_middlewares<M: Middleware>(mids: &Vec<M>, req: Request) -> (out: MidProduct)
    ensures
        out == run_middleware_chain(mids@, req),
{
    let mut current = MidProduct::PendingRequest(req);
    let mut i: usize = 0;
    proof {
        assert(mids@.skip(0) =~= mids@);
    }
    while i < mids.len()
        invariant
            0 <= i <= mids@.len(),
            (match current {
                MidProduct::PendingRequest(r) => run_middleware_chain(mids@, req)
                    == run_middleware_chain(mids@.skip(i as int), r),
                out => run_middleware_chain(mids@, req) == out,
            }),
        decreases mids@.len() - i,
    {
        current = match current {
            MidProduct::PendingRequest(r) => {
                proof {
                    assert(mids@.skip(i as int)[0] == mids@[i as int]);
                    assert(mids@.skip(i as int).skip(1) =~= mids@.skip(i as int + 1));
                }
                mids[i].transform(r)
            },
            out => out,
        };
        i = i + 1;
    }
    proof {
        assert(mids@.skip(i as int) =~= Seq::<M>::empty());
    }
    current
}

/// Run a pipeline chain on an item, left to right, stopping at the first
/// stage that drops it. `Some` means the item survived every stage and is
/// owed the terminal report; `None` means some stage consumed it.
pub fn run_pipelines<P: PipelineStage>(pipes: &Vec<P>, item: Item) -> (out: Option<Item>)
    ensures
        out == run_pipeline_chain(pipes@, Some(item)),
{
    let mut current = Some(item);
    let mut i: usize = 0;
    proof {
        assert(pipes@.skip(0) =~= pipes@);
    }
    while i < pipes.len()
        invariant
            0 <= i <= pipes@.len(),
            run_pipeline_chain(pipes@, Some(item)) == run_pipeline_chain(
                pipes@.skip(i as int),
                current,
            ),
        decreases pipes@.len() - i,
    {
        current = match current {
            Some(it) => {
                proof {
                    assert(pipes@.skip(i as int)[0] == pipes@[i as int]);
                    assert(pipes@.skip(i as int).skip(1) =~= pipes@.skip(i as int + 1));
                }
                pipes[i].transform(it)
            },
            None => {
                proof {
                    assert(pipes@.skip(i as int).skip(1) =~= pipes@.skip(i as int + 1));
                }
                None
            },
        };
        i = i + 1;
    }
    proof {
        assert(pipes@.skip(i as int) =~= Seq::<P>::empty());
    }
    current
}

/// Middleware short-circuit: once a prefix of the chain yields anything but
/// `PendingRequest`, the stages behind it never weigh in — the chain over
/// any extension returns exactly the prefix's output.
pub proof fn lemma_middleware_short_circuit<M: Middleware>(
    prefix: Seq<M>,
    rest: Seq<M>,
    req: Request,
)
    requires
        !(run_middleware_chain(prefix, req) is PendingRequest),
    ensures
        run_middleware_chain(prefix + rest, req) == run_middleware_chain(prefix, req),
    decreases prefix.len(),
{
    if prefix.len() == 0 {
        assert(run_middleware_chain(prefix, req) is PendingRequest);
    } else {
        assert((prefix + rest)[0] == prefix[0]);
        match prefix[0].spec_transform(req) {
            MidProduct::PendingRequest(r) => {
                assert((prefix + rest).skip(1) =~= prefix.skip(1) + rest);
                lemma_middleware_short_circuit(prefix.skip(1), rest, r);
            },
            _ => {},
        }
    }
}

/// Pipeline short-circuit: once a prefix of the chain drops the item, the
/// stages behind it never run and the whole chain drops it too.
pub proof fn lemma_pipeline_short_circuit<P: PipelineStage>(
    prefix: Seq<P>,
    rest: Seq<P>,
    item: Option<Item>,
)
    requires
        run_pipeline_chain(prefix, item) is None,
    ensures
        run_pipeline_chain(prefix + rest, item) is None,
    decreases prefix.len(),
{
    if prefix.len() == 0 || item is None {
        lemma_pipeline_none_absorbs::<P>(prefix + rest);
    } else {
        assert((prefix + rest)[0] == prefix[0]);
        assert((prefix + rest).skip(1) =~= prefix.skip(1) + rest);
        lemma_pipeline_short_circuit(prefix.skip(1), rest, prefix[0].spec_transform(item->0));
    }
}

/// A dropped item stays dropped, whatever stages remain.
pub proof fn lemma_pipeline_none_absorbs<P: PipelineStage>(pipes: Seq<P>)
    ensures
        run_pipeline_chain(pipes, None::<Item>) is None,
{
}

/// The basic middleware stages the library ships: let a request through
/// untouched, or drop it — a kill switch that drains a crawl without
/// touching the rest of the chain.
pub enum BasicMiddleware {
    Pass,
    Drop,
}

impl Middleware for BasicMiddleware {
    open spec fn spec_transform(&self, req: Request) -> MidProduct {
        match self {
            BasicMiddleware::Pass => MidProduct::PendingRequest(req),
            BasicMiddleware::Drop => MidProduct::Ignore,
        }
    }

    fn transform(&self, req: Request) -> MidProduct {
        match self {
            BasicMiddleware::Pass => MidProduct::PendingRequest(req),
            BasicMiddleware::Drop => MidProduct::Ignore,
        }
    }
}

/// The basic pipeline stages the library ships: keep every item, or drop
/// the ones with no entries.
pub enum BasicPipeline {
    Keep,
    DropEmpty,
}

impl PipelineStage for BasicPipeline {
    open spec fn spec_transform(&self, item: Item) -> Option<Item> {
        match self {
            BasicPipeline::Keep => Some(item),
            BasicPipeline::DropEmpty => if item.spec_entries().len() == 0 {
                None
            } else {
                Some(item)
            },
        }
    }

    fn transform(&self, item: Item) -> Option<Item> {
        match self {
            BasicPipeline::Keep => Some(item),
            BasicPipeline::DropEmpty => if item.is_empty() {
                None
            } else {
                Some(item)
            },
        }
    }
}

} // verus!
