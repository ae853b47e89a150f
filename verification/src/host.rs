//! The boundary to the host serving layer.

use vstd::prelude::*;
use actix_web::web::ServiceConfig;

verus! {

/// `actix_web::web::ServiceConfig`, the host's route and handler registration
/// surface. It is carried through opaquely: nothing is claimed of its contents.
#[verifier::external_type_specification]
#[verifier::external_body]
pub struct ExServiceConfig(actix_web::web::ServiceConfig);

/// A capability that registers itself with the host serving layer.
///
/// `registers` is the implementor's own account of what `register` does to
/// the host's configuration. Unless an implementor says more, it holds of
/// every pair of configurations.
pub trait ServiceFactory: Send + Sync {
    open spec fn registers(&self, before: ServiceConfig, after: ServiceConfig) -> bool {
        true
    }

    fn register(&self, app: &mut ServiceConfig)
        ensures
            self.registers(*old(app), *final(app)),
    ;
}

/// `after` is what the host's configuration becomes when the first `upto`
/// clients register with `before`, one after the other, each exactly once.
pub open spec fn registered_in_order<C: ServiceFactory>(
    clients: Seq<C>,
    upto: int,
    before: ServiceConfig,
    after: ServiceConfig,
) -> bool
    decreases upto,
{
    if upto <= 0 {
        before == after
    } else {
        exists|mid: ServiceConfig|
            registered_in_order(clients, upto - 1, before, mid) && (#[trigger] clients[upto
                - 1].registers(mid, after))
    }
}

/// Hands every client to the host once, in the order given.
pub fn register_all<C: ServiceFactory>(clients: &Vec<C>, app: &mut ServiceConfig)
    ensures
        registered_in_order(clients@, clients@.len() as int, *old(app), *final(app)),
{
    let mut i: usize = 0;
    while i < clients.len()
        invariant
            i <= clients.len(),
            registered_in_order(clients@, i as int, *old(app), *app),
        decreases clients.len() - i,
    {
        let ghost mid = *app;
        clients[i].register(app);
        i = i + 1;
        proof {
            assert(registered_in_order(clients@, i - 1, *old(app), mid));
            assert(clients@[i - 1].registers(mid, *app));
        }
    }
}

} // verus!
