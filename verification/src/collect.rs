//! One collection pass: the deterministic query plan over every
//! (network, address, asset) combination, and the result records handed to
//! the observer.

use vstd::prelude::*;
use crate::addr::Address_;
use crate::conversion::U256;
use crate::monitor::{AddressToMonitor, BalanceMonitor, Network, reserved_token_name};

verus! {

/// One asset to query for an address: the native balance, or a token
/// contract's balance entry point.
#[derive(Debug)]
pub enum AssetQuery {
    Ether,
    Erc20 { name: String, contract: Address_ },
}

/// One planned query: everything needed to issue it and to label its result.
#[derive(Debug)]
pub struct QueryTask {
    pub network_name: String,
    pub address_name: String,
    pub address: Address_,
    pub asset: AssetQuery,
    pub tag: String,
}

/// A failed query, carried through opaquely as its rendered message.
#[derive(Debug)]
pub struct QueryError {
    pub message: String,
}

impl Clone for QueryError {
    fn clone(&self) -> (r: Self)
        ensures
            r.message@ == self.message@,
    {
        QueryError { message: self.message.clone() }
    }
}

/// One result record, delivered to the observer once per combination.
#[derive(Debug)]
pub struct CallbackParameters {
    pub network_name: String,
    pub address_name: String,
    pub address: Address_,
    pub token_name: String,
    pub balance: Result<U256, QueryError>,
    pub tag: String,
}

pub ghost enum AssetView {
    Ether,
    Erc20 { name: Seq<char>, contract: Seq<u8> },
}

pub ghost struct TaskView {
    pub network_name: Seq<char>,
    pub address_name: Seq<char>,
    pub address: Seq<u8>,
    pub asset: AssetView,
    pub tag: Seq<char>,
}

impl View for QueryTask {
    type V = TaskView;

    open spec fn view(&self) -> TaskView {
        TaskView {
            network_name: self.network_name@,
            address_name: self.address_name@,
            address: self.address@,
            asset: match self.asset {
                AssetQuery::Ether => AssetView::Ether,
                AssetQuery::Erc20 { name, contract } => AssetView::Erc20 {
                    name: name@,
                    contract: contract@,
                },
            },
            tag: self.tag@,
        }
    }
}

pub open spec fn plan_views(ts: Seq<QueryTask>) -> Seq<TaskView> {
    Seq::new(ts.len(), |i: int| ts[i]@)
}

/// The native-balance task of an address, present only when watched.
pub open spec fn ether_tasks(net_name: Seq<char>, a: AddressToMonitor) -> Seq<TaskView> {
    if a.monitor_ether {
        seq![
            TaskView {
                network_name: net_name,
                address_name: a.name@,
                address: a.address@,
                asset: AssetView::Ether,
                tag: a.tag@,
            },
        ]
    } else {
        Seq::empty()
    }
}

pub open spec fn token_task(net_name: Seq<char>, a: AddressToMonitor, k: int) -> TaskView {
    TaskView {
        network_name: net_name,
        address_name: a.name@,
        address: a.address@,
        asset: AssetView::Erc20 { name: a.tokens@[k].name@, contract: a.tokens@[k].address@ },
        tag: a.tag@,
    }
}

/// All tasks of one address: the native balance first (when watched), then
/// its tokens in configured order.
pub open spec fn address_tasks(net_name: Seq<char>, a: AddressToMonitor) -> Seq<TaskView> {
    ether_tasks(net_name, a) + Seq::new(a.tokens@.len(), |k: int| token_task(net_name, a, k))
}

/// All tasks of a network's addresses, in binding order.
pub open spec fn addresses_tasks(net_name: Seq<char>, addrs: Seq<AddressToMonitor>) -> Seq<
    TaskView,
>
    decreases addrs.len(),
{
    if addrs.len() == 0 {
        Seq::empty()
    } else {
        addresses_tasks(net_name, addrs.drop_last()) + address_tasks(net_name, addrs.last())
    }
}

/// All tasks of a whole pass, networks in binding order.
pub open spec fn networks_tasks(nets: Seq<Network>) -> Seq<TaskView>
    decreases nets.len(),
{
    if nets.len() == 0 {
        Seq::empty()
    } else {
        networks_tasks(nets.drop_last()) + addresses_tasks(
            nets.last().name@,
            nets.last().addresses@,
        )
    }
}

/// The full deterministic plan of one collection pass.
pub open spec fn spec_plan(m: BalanceMonitor) -> Seq<TaskView> {
    networks_tasks(m.networks@)
}

/// How many queries one address contributes to a pass.
pub open spec fn address_task_count(a: AddressToMonitor) -> nat {
    (if a.monitor_ether {
        1nat
    } else {
        0nat
    }) + a.tokens@.len()
}

pub open spec fn addresses_task_count(addrs: Seq<AddressToMonitor>) -> nat
    decreases addrs.len(),
{
    if addrs.len() == 0 {
        0nat
    } else {
        addresses_task_count(addrs.drop_last()) + address_task_count(addrs.last())
    }
}

pub open spec fn networks_task_count(nets: Seq<Network>) -> nat
    decreases nets.len(),
{
    if nets.len() == 0 {
        0nat
    } else {
        networks_task_count(nets.drop_last()) + addresses_task_count(nets.last().addresses@)
    }
}

proof fn lemma_addresses_tasks_len(net_name: Seq<char>, addrs: Seq<AddressToMonitor>)
    ensures
        addresses_tasks(net_name, addrs).len() == addresses_task_count(addrs),
    decreases addrs.len(),
{
    if addrs.len() > 0 {
        lemma_addresses_tasks_len(net_name, addrs.drop_last());
    }
}

proof fn lemma_networks_tasks_len(nets: Seq<Network>)
    ensures
        networks_tasks(nets).len() == networks_task_count(nets),
    decreases nets.len(),
{
    if nets.len() > 0 {
        lemma_networks_tasks_len(nets.drop_last());
        lemma_addresses_tasks_len(nets.last().name@, nets.last().addresses@);
    }
}

/// One full pass invokes the observer exactly once per configured
/// combination: summed over all addresses of all networks, one query when the
/// native balance is watched plus one per watched token.
pub proof fn lemma_pass_count(m: BalanceMonitor)
    ensures
        spec_plan(m).len() == networks_task_count(m.networks@),
{
    lemma_networks_tasks_len(m.networks@);
}

proof fn lemma_addresses_count_prefix(addrs: Seq<AddressToMonitor>, j: int)
    requires
        0 <= j < addrs.len(),
    ensures
        addresses_task_count(addrs.take(j)) + address_task_count(addrs[j])
            <= addresses_task_count(addrs),
    decreases addrs.len(),
{
    if j == addrs.len() - 1 {
        assert(addrs.take(j) =~= addrs.drop_last());
    } else {
        assert(addrs.drop_last().take(j) =~= addrs.take(j));
        lemma_addresses_count_prefix(addrs.drop_last(), j);
    }
}

proof fn lemma_networks_count_prefix(nets: Seq<Network>, i: int)
    requires
        0 <= i < nets.len(),
    ensures
        networks_task_count(nets.take(i)) + addresses_task_count(nets[i].addresses@)
            <= networks_task_count(nets),
    decreases nets.len(),
{
    if i == nets.len() - 1 {
        assert(nets.take(i) =~= nets.drop_last());
    } else {
        assert(nets.drop_last().take(i) =~= nets.take(i));
        lemma_networks_count_prefix(nets.drop_last(), i);
    }
}

proof fn lemma_addresses_tasks_slice(net_name: Seq<char>, addrs: Seq<AddressToMonitor>, j: int)
    requires
        0 <= j < addrs.len(),
    ensures
        addresses_tasks(net_name, addrs).subrange(
            addresses_task_count(addrs.take(j)) as int,
            addresses_task_count(addrs.take(j)) + address_task_count(addrs[j]) as int,
        ) == address_tasks(net_name, addrs[j]),
    decreases addrs.len(),
{
    lemma_addresses_tasks_len(net_name, addrs.take(j));
    if j == addrs.len() - 1 {
        assert(addrs.take(j) =~= addrs.drop_last());
        lemma_addresses_tasks_len(net_name, addrs.drop_last());
        assert(addresses_tasks(net_name, addrs).subrange(
            addresses_task_count(addrs.take(j)) as int,
            addresses_task_count(addrs.take(j)) + address_task_count(addrs[j]) as int,
        ) =~= address_tasks(net_name, addrs[j]));
    } else {
        assert(addrs.drop_last().take(j) =~= addrs.take(j));
        lemma_addresses_tasks_slice(net_name, addrs.drop_last(), j);
        lemma_addresses_count_prefix(addrs.drop_last(), j);
        lemma_addresses_tasks_len(net_name, addrs.drop_last());
        assert(addresses_tasks(net_name, addrs).subrange(
            addresses_task_count(addrs.take(j)) as int,
            addresses_task_count(addrs.take(j)) + address_task_count(addrs[j]) as int,
        ) =~= addresses_tasks(net_name, addrs.drop_last()).subrange(
            addresses_task_count(addrs.take(j)) as int,
            addresses_task_count(addrs.take(j)) + address_task_count(addrs[j]) as int,
        ));
    }
}

proof fn lemma_networks_tasks_slice(nets: Seq<Network>, i: int)
    requires
        0 <= i < nets.len(),
    ensures
        networks_tasks(nets).subrange(
            networks_task_count(nets.take(i)) as int,
            networks_task_count(nets.take(i)) + addresses_task_count(nets[i].addresses@) as int,
        ) == addresses_tasks(nets[i].name@, nets[i].addresses@),
    decreases nets.len(),
{
    lemma_networks_tasks_len(nets.take(i));
    lemma_addresses_tasks_len(nets[i].name@, nets[i].addresses@);
    if i == nets.len() - 1 {
        assert(nets.take(i) =~= nets.drop_last());
        lemma_networks_tasks_len(nets.drop_last());
        assert(networks_tasks(nets).subrange(
            networks_task_count(nets.take(i)) as int,
            networks_task_count(nets.take(i)) + addresses_task_count(nets[i].addresses@) as int,
        ) =~= addresses_tasks(nets[i].name@, nets[i].addresses@));
    } else {
        assert(nets.drop_last().take(i) =~= nets.take(i));
        lemma_networks_tasks_slice(nets.drop_last(), i);
        lemma_networks_count_prefix(nets.drop_last(), i);
        lemma_networks_tasks_len(nets.drop_last());
        assert(networks_tasks(nets).subrange(
            networks_task_count(nets.take(i)) as int,
            networks_task_count(nets.take(i)) + addresses_task_count(nets[i].addresses@) as int,
        ) =~= networks_tasks(nets.drop_last()).subrange(
            networks_task_count(nets.take(i)) as int,
            networks_task_count(nets.take(i)) + addresses_task_count(nets[i].addresses@) as int,
        ));
    }
}

/// Every configured combination is covered exactly once, in the
/// deterministic order: the tasks of address `j` of network `i` occupy
/// exactly the contiguous slice of the pass that starts after all
/// combinations of earlier networks and earlier addresses, with the native
/// balance first (when watched) followed by the address's tokens in their
/// configured order.
pub proof fn lemma_plan_positions(m: BalanceMonitor, i: int, j: int)
    requires
        0 <= i < m.networks@.len(),
        0 <= j < m.networks@[i].addresses@.len(),
    ensures
        ({
            let net = m.networks@[i];
            let a = net.addresses@[j];
            let base = networks_task_count(m.networks@.take(i)) + addresses_task_count(
                net.addresses@.take(j),
            );
            spec_plan(m).subrange(base as int, base + address_task_count(a) as int) == address_tasks(
                net.name@,
                a,
            )
        }),
{
    let net = m.networks@[i];
    let a = net.addresses@[j];
    let n0 = networks_task_count(m.networks@.take(i)) as int;
    let a0 = addresses_task_count(net.addresses@.take(j)) as int;
    let ac = address_task_count(a) as int;
    lemma_networks_tasks_slice(m.networks@, i);
    lemma_addresses_tasks_slice(net.name@, net.addresses@, j);
    lemma_addresses_count_prefix(net.addresses@, j);
    lemma_networks_tasks_len(m.networks@.take(i));
    lemma_addresses_tasks_len(net.name@, net.addresses@);
    lemma_networks_count_prefix(m.networks@, i);
    lemma_networks_tasks_len(m.networks@);
    assert(spec_plan(m).subrange(n0 + a0, n0 + a0 + ac) =~= networks_tasks(m.networks@).subrange(
        n0,
        n0 + addresses_task_count(net.addresses@) as int,
    ).subrange(a0, a0 + ac));
}

/// A record agrees with its task's labels and carries the given outcome.
pub open spec fn record_matches(
    rec: CallbackParameters,
    t: TaskView,
    outcome: Result<U256, QueryError>,
) -> bool {
    &&& rec.network_name@ == t.network_name
    &&& rec.address_name@ == t.address_name
    &&& rec.address@ == t.address
    &&& rec.token_name@ == (match t.asset {
        AssetView::Ether => reserved_token_name(),
        AssetView::Erc20 { name, .. } => name,
    })
    &&& rec.tag@ == t.tag
    &&& match (rec.balance, outcome) {
        (Ok(a), Ok(b)) => a == b,
        (Err(x), Err(y)) => x.message@ == y.message@,
        _ => false,
    }
}

/// Wrap one query outcome, success or failure, as the record delivered for
/// its combination. Every outcome yields a record: a failure is reported, not
/// raised.
pub fn make_record(task: &QueryTask, balance: Result<U256, QueryError>) -> (r: CallbackParameters)
    ensures
        record_matches(r, task@, balance),
{
    let token_name: String = match &task.asset {
        AssetQuery::Ether => "ether".to_owned(),
        AssetQuery::Erc20 { name, .. } => name.clone(),
    };
    CallbackParameters {
        network_name: task.network_name.clone(),
        address_name: task.address_name.clone(),
        address: task.address.clone(),
        token_name,
        balance,
        tag: task.tag.clone(),
    }
}

fn clone_outcome(o: &Result<U256, QueryError>) -> (r: Result<U256, QueryError>)
    ensures
        match (r, *o) {
            (Ok(a), Ok(b)) => a == b,
            (Err(x), Err(y)) => x.message@ == y.message@,
            _ => false,
        },
{
    match o {
        Ok(v) => Ok(*v),
        Err(e) => Err(e.clone()),
    }
}

/// Turn one pass's outcomes into the records of that pass.
///
/// Every combination of the plan yields exactly one record, whatever its own
/// outcome was: a failed query at one position never suppresses or alters the
/// records of the positions after it.
pub fn collect_records(plan: &Vec<QueryTask>, outcomes: &Vec<Result<U256, QueryError>>) -> (r: Vec<
    CallbackParameters,
>)
    requires
        plan@.len() == outcomes@.len(),
    ensures
        r@.len() == plan@.len(),
        forall|i: int|
            0 <= i < plan@.len() ==> record_matches(#[trigger] r@[i], plan@[i]@, outcomes@[i]),
{
    let mut out: Vec<CallbackParameters> = Vec::new();
    let mut i: usize = 0;
    while i < plan.len()
        invariant
            plan@.len() == outcomes@.len(),
            i <= plan@.len(),
            out@.len() == i,
            forall|j: int|
                0 <= j < i ==> record_matches(#[trigger] out@[j], plan@[j]@, outcomes@[j]),
        decreases plan@.len() - i,
    {
        let rec = make_record(&plan[i], clone_outcome(&outcomes[i]));
        out.push(rec);
        i = i + 1;
    }
    out
}

impl BalanceMonitor {
    /// The queries of one full collection pass, in the deterministic order:
    /// networks in binding order, addresses in binding order within each
    /// network, and for each address the native balance first (when watched)
    /// followed by its tokens in configured order.
    pub fn query_plan(&self) -> (r: Vec<QueryTask>)
        ensures
            plan_views(r@) == spec_plan(*self),
    {
        let mut out: Vec<QueryTask> = Vec::new();
        let mut i: usize = 0;
        proof {
            assert(plan_views(out@) =~= networks_tasks(self.networks@.take(0)));
        }
        while i < self.networks.len()
            invariant
                i <= self.networks@.len(),
                plan_views(out@) == networks_tasks(self.networks@.take(i as int)),
            decreases self.networks@.len() - i,
        {
            let net = &self.networks[i];
            let mut j: usize = 0;
            proof {
                assert(addresses_tasks(net.name@, net.addresses@.take(0)) =~= Seq::empty());
                assert(plan_views(out@) =~= networks_tasks(self.networks@.take(i as int))
                    + addresses_tasks(net.name@, net.addresses@.take(0)));
            }
            while j < net.addresses.len()
                invariant
                    i < self.networks@.len(),
                    net == self.networks@[i as int],
                    j <= net.addresses@.len(),
                    plan_views(out@) == networks_tasks(self.networks@.take(i as int))
                        + addresses_tasks(net.name@, net.addresses@.take(j as int)),
                decreases net.addresses@.len() - j,
            {
                let addr = &net.addresses[j];
                let ghost base = networks_tasks(self.networks@.take(i as int)) + addresses_tasks(
                    net.name@,
                    net.addresses@.take(j as int),
                );
                if addr.monitor_ether {
                    let ghost before = plan_views(out@);
                    out.push(
                        QueryTask {
                            network_name: net.name.clone(),
                            address_name: addr.name.clone(),
                            address: addr.address.clone(),
                            asset: AssetQuery::Ether,
                            tag: addr.tag.clone(),
                        },
                    );
                    proof {
                        assert(plan_views(out@) =~= base + ether_tasks(net.name@, *addr));
                    }
                } else {
                    proof {
                        assert(plan_views(out@) =~= base + ether_tasks(net.name@, *addr));
                    }
                }
                let mut k: usize = 0;
                while k < addr.tokens.len()
                    invariant
                        i < self.networks@.len(),
                        net == self.networks@[i as int],
                        j < net.addresses@.len(),
                        addr == net.addresses@[j as int],
                        k <= addr.tokens@.len(),
                        plan_views(out@) == networks_tasks(self.networks@.take(i as int))
                            + addresses_tasks(net.name@, net.addresses@.take(j as int))
                            + ether_tasks(net.name@, *addr) + Seq::new(
                            k as nat,
                            |t: int| token_task(net.name@, *addr, t),
                        ),
                    decreases addr.tokens@.len() - k,
                {
                    let tok = &addr.tokens[k];
                    let ghost before = plan_views(out@);
                    out.push(
                        QueryTask {
                            network_name: net.name.clone(),
                            address_name: addr.name.clone(),
                            address: addr.address.clone(),
                            asset: AssetQuery::Erc20 {
                                name: tok.name.clone(),
                                contract: tok.address.clone(),
                            },
                            tag: addr.tag.clone(),
                        },
                    );
                    proof {
                        assert(plan_views(out@) =~= before.push(
                            token_task(net.name@, *addr, k as int),
                        ));
                        assert(plan_views(out@) =~= networks_tasks(self.networks@.take(i as int))
                            + addresses_tasks(net.name@, net.addresses@.take(j as int))
                            + ether_tasks(net.name@, *addr) + Seq::new(
                            k as nat + 1,
                            |t: int| token_task(net.name@, *addr, t),
                        ));
                    }
                    k = k + 1;
                }
                proof {
                    assert(net.addresses@.take(j + 1).drop_last() =~= net.addresses@.take(
                        j as int,
                    ));
                    assert(net.addresses@.take(j + 1).last() == net.addresses@[j as int]);
                    assert(Seq::new(addr.tokens@.len(), |t: int| token_task(net.name@, *addr, t))
                        =~= Seq::new(k as nat, |t: int| token_task(net.name@, *addr, t)));
                    assert(plan_views(out@) =~= networks_tasks(self.networks@.take(i as int))
                        + addresses_tasks(net.name@, net.addresses@.take(j + 1)));
                }
                j = j + 1;
            }
            proof {
                assert(self.networks@.take(i + 1).drop_last() =~= self.networks@.take(i as int));
                assert(self.networks@.take(i + 1).last() == self.networks@[i as int]);
                assert(net.addresses@.take(net.addresses@.len() as int) =~= net.addresses@);
                assert(plan_views(out@) =~= networks_tasks(self.networks@.take(i + 1)));
            }
            i = i + 1;
        }
        proof {
            assert(self.networks@.take(self.networks@.len() as int) =~= self.networks@);
        }
        out
    }
}

} // verus!
