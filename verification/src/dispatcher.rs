//! The product dispatcher's decisions: what to do with each product drained
//! from the channel, and when a receive timeout means the crawl is over.
//!
//! The embedding program runs the dispatcher as one dedicated worker that
//! blocks on the bounded channel and fans the tasks decided here into the
//! transform pool.

use vstd::prelude::*;

use crate::chain::{run_middleware_chain, run_middlewares, Middleware};
use crate::product::{Item, MidProduct, Product};
use crate::request::Request;
use crate::scheduler::ReadyQueue;

verus! {

/// The task owed for one product received from the channel.
pub enum DispatchTask {
    /// Run the middleware chain on this request, on the transform pool.
    RunMiddlewares(Request),
    /// Run the pipeline chain on this item, on the transform pool.
    RunPipelines(Item),
    /// Set the finished flag; the crawl is exhausted.
    SetFinished,
}

/// What the dispatcher does with one received product.
pub fn dispatch_product(product: Product) -> (task: DispatchTask)
    ensures
        (match product {
            Product::NewRequest(req) => task == DispatchTask::RunMiddlewares(req),
            Product::ExtractedItem(item) => task == DispatchTask::RunPipelines(item),
            Product::Finished => task == DispatchTask::SetFinished,
        }),
{
    match product {
        Product::NewRequest(req) => DispatchTask::RunMiddlewares(req),
        Product::ExtractedItem(item) => DispatchTask::RunPipelines(item),
        Product::Finished => DispatchTask::SetFinished,
    }
}

/// Whether a receive timeout means the crawl is exhausted: only when the
/// transform pool has no running and no queued task is the quiet channel
/// taken for the end; otherwise the dispatcher just keeps listening.
pub fn timeout_means_finished(active_tasks: usize, queued_tasks: usize) -> (b: bool)
    ensures
        b == (active_tasks == 0 && queued_tasks == 0),
{
    active_tasks == 0 && queued_tasks == 0
}

/// One transform-pool task for a new request: run the middleware chain and
/// append its outcome to the ready queue — unless the chain said `Ignore`,
/// which is dropped here with no further effect.
pub fn middleware_task<M: Middleware>(mids: &Vec<M>, req: Request, queue: &mut ReadyQueue)
    ensures
        ({
            let out = run_middleware_chain(mids@, req);
            if out is Ignore {
                final(queue)@ == old(queue)@
            } else {
                final(queue)@ == old(queue)@.push(out)
            }
        }),
{
    let out = run_middlewares(mids, req);
    match out {
        MidProduct::Ignore => (),
        other => queue.push(other),
    }
}

} // verus!
