//! A bench for a rate-limited proxy: a chain with a clock, the proxy on it, a
//! receiver that keeps the last notification it got, and a minter that sends
//! tokens of several collections through the proxy at a cadence of its own.

use crate::admission::{admits, attempt, AdmissionState, RateLimitExceeded};
use crate::cadence::{
    attempts_due, due, gate_open, lemma_drive_rejected_iff_exceeds, lemma_run_grows, long_enough,
    lemma_run_push, lemma_run_stops, lemma_schedule_starts_with, run, schedule, volley, Run,
};
use crate::decimal::{decimal, decimal_text, lemma_decimal_text_injective};
use crate::payload::{encode, json_binary};
use crate::proxy::RateLimitedProxy;
use crate::random::pick;
use crate::rate::{InvalidPolicy, Rate};
use crate::relay::{Relay, RelayNotification};
use rand::rngs::ThreadRng;
use vstd::pervasive::unreached;
use vstd::prelude::*;
use vstd::string::StringExecFns;

verus! {

/// The height of a fresh chain.
pub const START_HEIGHT: u64 = 12_345;

/// What a collection tells the proxy when one of its tokens is sent there.
#[derive(Clone, Debug, PartialEq, Eq)]
pub struct ReceiveMsg {
    pub sender: String,
    pub token_id: String,
    pub msg: Vec<u8>,
}

/// The name of the collection number `id`.
pub open spec fn collection_name(id: nat) -> Seq<char> {
    "cw721 "@ + decimal_text(id)
}

/// `msg` is what the bench sends with token number `token`.
pub open spec fn receipt(msg: ReceiveMsg, minter: String, token: usize) -> bool {
    &&& msg.sender == minter
    &&& msg.token_id@ == decimal_text(token as nat)
    &&& msg.msg@ == json_binary("hello"@)
}

/// How long a proxy with limit `rate` is left alone after its creation so
/// that it is open: the spacing of `Blocks`, and no time at all for
/// `PerBlock`.
pub open spec fn warm_up(rate: Rate) -> nat {
    match rate {
        Rate::PerBlock(_) => 0,
        Rate::Blocks(b) => b as nat,
    }
}

/// Collections of different numbers have different names.
pub proof fn lemma_collection_names_differ(i: nat, j: nat)
    requires
        i != j,
    ensures
        collection_name(i) != collection_name(j),
{
    let prefix = "cw721 "@;
    if collection_name(i) == collection_name(j) {
        assert(collection_name(i).subrange(prefix.len() as int, collection_name(i).len() as int)
            == decimal_text(i));
        assert(collection_name(j).subrange(prefix.len() as int, collection_name(j).len() as int)
            == decimal_text(j));
        lemma_decimal_text_injective(i, j);
    }
}

/// No collection has the name of the minter, the proxy or the receiver.
pub proof fn lemma_collection_name_is_no_other(id: nat)
    ensures
        collection_name(id) != "minter"@,
        collection_name(id) != "rate_limiter"@,
        collection_name(id) != "proxy_tester"@,
        "minter"@ != "rate_limiter"@,
        "minter"@ != "proxy_tester"@,
        "rate_limiter"@ != "proxy_tester"@,
{
    reveal_strlit("cw721 ");
    reveal_strlit("minter");
    reveal_strlit("rate_limiter");
    reveal_strlit("proxy_tester");
    assert(collection_name(id)[0] == 'c');
    assert("minter"@[0] == 'm');
    assert("rate_limiter"@[0] == 'r');
    assert("proxy_tester"@[0] == 'p');
}

/// The receiver holds the notification of token number `token`, sent by one
/// of `collections`.
pub open spec fn delivered(
    last_msg: Option<RelayNotification<ReceiveMsg>>,
    collections: Seq<String>,
    minter: String,
    token: usize,
) -> bool {
    &&& last_msg is Some
    &&& collections.contains(last_msg->Some_0.sender_identity)
    &&& receipt(last_msg->Some_0.payload, minter, token)
}

/// A chain: its height is the tick of the proxy that runs on it, and what
/// the proxy relays reaches a receiver that keeps the last notification.
#[derive(Clone, Debug, PartialEq, Eq)]
pub struct App {
    height: u64,
    rate_limiter: RateLimitedProxy,
    last_msg: Option<RelayNotification<ReceiveMsg>>,
}

impl App {
    pub closed spec fn spec_height(&self) -> u64 {
        self.height
    }

    /// The proxy on this chain.
    pub closed spec fn proxy(&self) -> RateLimitedProxy {
        self.rate_limiter
    }

    pub closed spec fn spec_last_msg(&self) -> Option<RelayNotification<ReceiveMsg>> {
        self.last_msg
    }

    /// The proxy is well formed and relays, and the clock is not behind it.
    pub open spec fn wf(&self) -> bool {
        &&& self.proxy().wf()
        &&& self.proxy().origin() is Some
        &&& self.proxy().state().last_tick <= self.height()
    }

    /// A fresh chain, at [`START_HEIGHT`], with a proxy created there and then
    /// to relay to `origin`. Nothing has been relayed yet.
    pub fn new(rate_limit: Rate, origin: String) -> (r: Result<App, InvalidPolicy>)
        ensures
            rate_limit.valid() <==> r is Ok,
            r is Ok ==> {
                &&& r->Ok_0.wf()
                &&& r->Ok_0.height() == START_HEIGHT
                &&& r->Ok_0.proxy().policy() == rate_limit
                &&& r->Ok_0.proxy().state() == (AdmissionState {
                    last_tick: START_HEIGHT,
                    count_in_tick: 0,
                })
                &&& r->Ok_0.proxy().origin() == Some(origin)
                &&& r->Ok_0.spec_last_msg() is None
            },
    {
        match RateLimitedProxy::new(rate_limit, Some(origin), START_HEIGHT) {
            Ok(rate_limiter) => Ok(App { height: START_HEIGHT, rate_limiter, last_msg: None }),
            Err(e) => Err(e),
        }
    }

    /// The current height.
    #[verifier::when_used_as_spec(spec_height)]
    pub fn height(&self) -> (h: u64)
        ensures
            h == self.spec_height(),
    {
        self.height
    }

    /// The proxy, for reading its policy, state and origin.
    pub fn rate_limiter(&self) -> (r: &RateLimitedProxy)
        ensures
            *r == self.proxy(),
    {
        &self.rate_limiter
    }

    /// The last notification that reached the receiver.
    pub fn last_msg(&self) -> (r: &Option<RelayNotification<ReceiveMsg>>)
        ensures
            *r == self.spec_last_msg(),
    {
        &self.last_msg
    }

    /// Moves the clock on by one.
    pub fn next_block(&mut self)
        requires
            old(self).height() < u64::MAX,
        ensures
            final(self).height() == old(self).height() + 1,
            final(self).proxy() == old(self).proxy(),
            final(self).spec_last_msg() == old(self).spec_last_msg(),
    {
        self.height = self.height + 1;
    }

    /// Moves the clock on by `blocks`.
    pub fn advance(&mut self, blocks: u64)
        requires
            old(self).height() + blocks <= u64::MAX,
        ensures
            final(self).height() == old(self).height() + blocks,
            final(self).proxy() == old(self).proxy(),
            final(self).spec_last_msg() == old(self).spec_last_msg(),
    {
        self.height = self.height + blocks;
    }

    /// `collection` sends a token to the proxy at the current height. If the
    /// proxy admits it, the notification reaches the receiver; if not,
    /// nothing on the chain changes.
    pub fn send_nft(&mut self, collection: String, msg: ReceiveMsg) -> (r: Result<
        (),
        RateLimitExceeded,
    >)
        requires
            old(self).wf(),
        ensures
            r is Ok <==> admits(
                old(self).proxy().policy(),
                old(self).proxy().state(),
                old(self).height(),
            ),
            r is Ok ==> final(self).spec_last_msg() == Some(
                RelayNotification { sender_identity: collection, payload: msg },
            ),
            r is Err ==> *final(self) == *old(self),
            final(self).wf(),
            final(self).height() == old(self).height(),
            final(self).proxy().policy() == old(self).proxy().policy(),
            final(self).proxy().origin() == old(self).proxy().origin(),
            final(self).proxy().state() == attempt(
                old(self).proxy().policy(),
                old(self).proxy().state(),
                old(self).height(),
            ),
    {
        match self.rate_limiter.receive(self.height, collection, msg) {
            Ok(Relay::Send(dispatch)) => {
                self.last_msg = Some(dispatch.notification);
                Ok(())
            },
            Ok(Relay::Skipped) => Ok(()),
            Err(e) => Err(e),
        }
    }
}

/// A bench: a chain, the collections on it, and the minter who owns every
/// token and sends them.
#[derive(Clone, Debug, PartialEq, Eq)]
pub struct Test {
    pub app: App,
    pub cw721s: Vec<String>,
    pub minter: String,
    pub rate_limiter: String,
    pub mock_receiver: String,
    /// The number of tokens minted so far. Tokens are numbered from 1.
    pub nfts_minted: usize,
}

impl Test {
    /// A bench with `cw721s` collections and a proxy whose limit is `rate`,
    /// relaying to the receiver.
    ///
    /// The proxy is created on a fresh chain, at its height. A spacing counts
    /// from there, so the bench lets it pass once before it is handed out:
    /// whatever the rate, the first token finds the proxy open.
    pub fn new(cw721s: usize, rate: Rate) -> (t: Test)
        requires
            rate.valid(),
            START_HEIGHT + warm_up(rate) <= u64::MAX,
        ensures
            t.app.wf(),
            t.app.proxy().policy() == rate,
            t.app.proxy().state() == (AdmissionState {
                last_tick: START_HEIGHT,
                count_in_tick: 0,
            }),
            t.app.proxy().origin() == Some(t.mock_receiver),
            t.app.spec_last_msg() is None,
            t.app.height() == START_HEIGHT + warm_up(rate),
            gate_open(rate, t.app.proxy().state(), t.app.height()),
            t.nfts_minted == 0,
            t.minter@ == "minter"@,
            t.rate_limiter@ == "rate_limiter"@,
            t.mock_receiver@ == "proxy_tester"@,
            t.cw721s@.len() == cw721s,
            forall|id: int| 0 <= id < cw721s ==> (#[trigger] t.cw721s@[id])@ == collection_name(id as nat),
            forall|i: int, j: int| 0 <= i < j < cw721s ==> t.cw721s@[i] != t.cw721s@[j],
            forall|id: int|
                0 <= id < cw721s ==> {
                    &&& #[trigger] t.cw721s@[id] != t.minter
                    &&& t.cw721s@[id] != t.rate_limiter
                    &&& t.cw721s@[id] != t.mock_receiver
                },
            t.minter != t.rate_limiter,
            t.minter != t.mock_receiver,
            t.rate_limiter != t.mock_receiver,
    {
        let minter = "minter".to_owned();
        let mock_receiver = "proxy_tester".to_owned();
        let rate_limiter = "rate_limiter".to_owned();
        let mut app = match App::new(rate, mock_receiver.clone()) {
            Ok(app) => app,
            Err(_) => unreached(),
        };
        match rate {
            Rate::PerBlock(_) => {},
            Rate::Blocks(spacing) => {
                app.advance(spacing);
            },
        }
        let mut collections: Vec<String> = Vec::new();
        let mut id: usize = 0;
        while id < cw721s
            invariant
                id <= cw721s,
                collections@.len() == id,
                forall|j: int| 0 <= j < id ==> (#[trigger] collections@[j])@ == collection_name(j as nat),
            decreases cw721s - id,
        {
            let name = "cw721 ".to_owned().concat(decimal(id).as_str());
            collections.push(name);
            id = id + 1;
        }
        proof {
            lemma_collection_name_is_no_other(0);
            assert forall|i: int, j: int| 0 <= i < j < cw721s implies collections@[i]
                != collections@[j] by {
                lemma_collection_names_differ(i as nat, j as nat);
                assert(collections@[i]@ != collections@[j]@);
            }
            assert forall|id: int| 0 <= id < cw721s implies {
                &&& #[trigger] collections@[id] != minter
                &&& collections@[id] != rate_limiter
                &&& collections@[id] != mock_receiver
            } by {
                lemma_collection_name_is_no_other(id as nat);
                assert(collections@[id]@ == collection_name(id as nat));
            }
        }
        Test { app, cw721s: collections, minter, rate_limiter, mock_receiver, nfts_minted: 0 }
    }

    /// Mints the next token and has `nft` send it to the proxy with the
    /// payload `"hello"`. When the proxy admits it, the receiver holds the
    /// notification of just this token; when not, the chain is as before.
    /// The token counts as minted either way.
    pub fn send_nft_and_check_received(&mut self, nft: String) -> (r: Result<(), RateLimitExceeded>)
        requires
            old(self).app.wf(),
            old(self).nfts_minted < usize::MAX,
        ensures
            r is Ok <==> admits(
                old(self).app.proxy().policy(),
                old(self).app.proxy().state(),
                old(self).app.height(),
            ),
            r is Ok ==> {
                &&& final(self).app.spec_last_msg() is Some
                &&& final(self).app.spec_last_msg()->Some_0.sender_identity == nft
                &&& receipt(
                    final(self).app.spec_last_msg()->Some_0.payload,
                    old(self).minter,
                    final(self).nfts_minted,
                )
            },
            r is Err ==> final(self).app == old(self).app,
            final(self).nfts_minted == old(self).nfts_minted + 1,
            final(self).app.wf(),
            final(self).app.height() == old(self).app.height(),
            final(self).app.proxy().policy() == old(self).app.proxy().policy(),
            final(self).app.proxy().origin() == old(self).app.proxy().origin(),
            final(self).app.proxy().state() == attempt(
                old(self).app.proxy().policy(),
                old(self).app.proxy().state(),
                old(self).app.height(),
            ),
            final(self).cw721s == old(self).cw721s,
            final(self).minter == old(self).minter,
            final(self).rate_limiter == old(self).rate_limiter,
            final(self).mock_receiver == old(self).mock_receiver,
    {
        self.nfts_minted = self.nfts_minted + 1;
        let msg = ReceiveMsg {
            sender: self.minter.clone(),
            token_id: decimal(self.nfts_minted),
            msg: encode("hello"),
        };
        self.app.send_nft(nft, msg)
    }

    /// Sends tokens at cadence `rate` for `for_blocks` ticks, each from a
    /// collection picked at random, and stops at the first rejection.
    ///
    /// The attempts are those of [`schedule`] from the current height on, and
    /// how far the drive gets is the [`run`] of the proxy over them: which
    /// collection sends makes no difference to the proxy. After a rejection
    /// the clock stands at the tick of the rejected attempt; else it has
    /// moved on by `for_blocks`.
    ///
    /// Where the proxy is open at the start, a drive at a rate that does not
    /// exceed the proxy's limit goes through, and one at a rate that does
    /// fails once it is long enough.
    #[verifier::loop_isolation(false)]
    pub fn send_nfts_at_rate(&mut self, rng: &mut ThreadRng, rate: Rate, for_blocks: usize) -> (r:
        Result<(), RateLimitExceeded>)
        requires
            old(self).app.wf(),
            rate != Rate::Blocks(0),
            old(self).app.height() + for_blocks <= u64::MAX,
            old(self).nfts_minted + run(
                old(self).app.proxy().policy(),
                old(self).app.proxy().state(),
                schedule(rate, old(self).app.height(), for_blocks as nat),
            ).attempts() <= usize::MAX,
            old(self).cw721s@.len() > 0 || schedule(
                rate,
                old(self).app.height(),
                for_blocks as nat,
            ).len() == 0,
        ensures
            ({
                let ticks = schedule(rate, old(self).app.height(), for_blocks as nat);
                let out = run(
                    old(self).app.proxy().policy(),
                    old(self).app.proxy().state(),
                    ticks,
                );
                &&& r is Err <==> out.rejected
                &&& final(self).app.proxy().state() == out.state
                &&& final(self).nfts_minted == old(self).nfts_minted + out.attempts()
                &&& out.rejected ==> out.admitted < ticks.len() && final(self).app.height()
                    == ticks[out.admitted as int]
                &&& !out.rejected ==> out.admitted == ticks.len() && final(self).app.height()
                    == old(self).app.height() + for_blocks
                &&& out.admitted == 0 ==> final(self).app.spec_last_msg() == old(
                    self,
                ).app.spec_last_msg()
                &&& out.admitted > 0 ==> delivered(
                    final(self).app.spec_last_msg(),
                    old(self).cw721s@,
                    old(self).minter,
                    (old(self).nfts_minted + out.admitted) as usize,
                )
            }),
            rate.valid() && gate_open(
                old(self).app.proxy().policy(),
                old(self).app.proxy().state(),
                old(self).app.height(),
            ) ==> {
                &&& !rate.exceeds(&old(self).app.proxy().policy()) ==> r is Ok
                &&& rate.exceeds(&old(self).app.proxy().policy()) && long_enough(
                    rate,
                    for_blocks as nat,
                ) ==> r is Err
            },
            final(self).app.wf(),
            final(self).app.proxy().policy() == old(self).app.proxy().policy(),
            final(self).app.proxy().origin() == old(self).app.proxy().origin(),
            final(self).cw721s == old(self).cw721s,
            final(self).minter == old(self).minter,
            final(self).rate_limiter == old(self).rate_limiter,
            final(self).mock_receiver == old(self).mock_receiver,
    {
        let start_block = self.app.height();
        let ghost policy = self.app.proxy().policy();
        let ghost origin = self.app.proxy().origin();
        let ghost state0 = self.app.proxy().state();
        let ghost last0 = self.app.spec_last_msg();
        let ghost minted0 = self.nfts_minted;
        let ghost names = self.cw721s;
        let ghost minter = self.minter;
        let ghost rate_limiter = self.rate_limiter;
        let ghost mock_receiver = self.mock_receiver;
        let ghost whole = schedule(rate, start_block, for_blocks as nat);
        proof {
            if rate.valid() && gate_open(policy, state0, start_block) {
                lemma_drive_rejected_iff_exceeds(
                    policy,
                    state0,
                    rate,
                    start_block,
                    for_blocks as nat,
                );
            }
        }
        let mut block: usize = 0;
        while block < for_blocks
            invariant
                block <= for_blocks,
                rate != Rate::Blocks(0),
                start_block + for_blocks <= u64::MAX,
                whole == schedule(rate, start_block, for_blocks as nat),
                minted0 + run(policy, state0, whole).attempts() <= usize::MAX,
                names@.len() > 0 || whole.len() == 0,
                self.app.wf(),
                self.app.height() == start_block + block,
                self.app.proxy().policy() == policy,
                self.app.proxy().origin() == origin,
                self.cw721s == names,
                self.minter == minter,
                self.rate_limiter == rate_limiter,
                self.mock_receiver == mock_receiver,
                run(policy, state0, schedule(rate, start_block, block as nat)) == (Run {
                    state: self.app.proxy().state(),
                    admitted: schedule(rate, start_block, block as nat).len(),
                    rejected: false,
                }),
                self.nfts_minted == minted0 + schedule(rate, start_block, block as nat).len(),
                self.nfts_minted == minted0 ==> self.app.spec_last_msg() == last0,
                self.nfts_minted > minted0 ==> delivered(
                    self.app.spec_last_msg(),
                    names@,
                    minter,
                    self.nfts_minted,
                ),
            decreases for_blocks - block,
        {
            let tick = self.app.height();
            let quota = attempts_due(rate, tick - start_block);
            let ghost before = schedule(rate, start_block, block as nat);
            let mut sent: u64 = 0;
            while sent < quota
                invariant
                    block < for_blocks,
                    sent <= quota,
                    quota == due(rate, block as nat),
                    tick == start_block + block,
                    before == schedule(rate, start_block, block as nat),
                    start_block + for_blocks <= u64::MAX,
                    whole == schedule(rate, start_block, for_blocks as nat),
                    minted0 + run(policy, state0, whole).attempts() <= usize::MAX,
                    names@.len() > 0 || whole.len() == 0,
                    self.app.wf(),
                    self.app.height() == tick,
                    self.app.proxy().policy() == policy,
                    self.app.proxy().origin() == origin,
                    self.cw721s == names,
                    self.minter == minter,
                    self.rate_limiter == rate_limiter,
                    self.mock_receiver == mock_receiver,
                    run(policy, state0, before + volley(tick, sent as nat)) == (Run {
                        state: self.app.proxy().state(),
                        admitted: before.len() + sent as nat,
                        rejected: false,
                    }),
                    self.nfts_minted == minted0 + before.len() + sent,
                    self.nfts_minted == minted0 ==> self.app.spec_last_msg() == last0,
                    self.nfts_minted > minted0 ==> delivered(
                        self.app.spec_last_msg(),
                        names@,
                        minter,
                        self.nfts_minted,
                    ),
                decreases quota - sent,
            {
                let ghost made = before + volley(tick, sent as nat);
                let ghost next = before + volley(tick, (sent + 1) as nat);
                proof {
                    assert(next == made.push(tick));
                    lemma_run_push(policy, state0, made, tick);
                    lemma_schedule_starts_with(
                        rate,
                        start_block,
                        for_blocks as nat,
                        block as nat,
                        (sent + 1) as nat,
                    );
                    lemma_run_grows(policy, state0, next, whole);
                    assert(whole[made.len() as int] == whole.take(next.len() as int)[made.len() as int]);
                }
                let nft = match pick(&self.cw721s, rng) {
                    Some(name) => name.clone(),
                    None => unreached(),
                };
                match self.send_nft_and_check_received(nft) {
                    Ok(()) => {},
                    Err(e) => {
                        proof {
                            lemma_run_stops(policy, state0, next, whole);
                        }
                        return Err(e);
                    },
                }
                sent = sent + 1;
            }
            proof {
                assert(schedule(rate, start_block, (block + 1) as nat) == before + volley(
                    tick,
                    quota as nat,
                ));
            }
            self.app.next_block();
            block = block + 1;
        }
        Ok(())
    }
}

} // verus!
