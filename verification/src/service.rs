//! The device service: the registry of known nodes, the animation store,
//! and the operations the timers and the control surface drive. All its
//! work is computation — the caller owns the socket, decodes inbound
//! datagrams with the codec, hands decoded commands in, and transmits the
//! datagrams the service hands back. On the one-second timer the caller
//! runs `sweep` first and then sends what `tick` returns; every 33
//! milliseconds it sends what `render` returns, reporting a failed send
//! through `note_send_failure` rather than dropping the node.
use vstd::prelude::*;

verus! {

use crate::animation_handler::{AnimationHandler, anim_idx, bundle_ok, has_anim, loaded_bundle, upserted};
use crate::client::{Address, Client, RenderMode, RenderModeV, is_fresh_client, names_ok};
use crate::codec::{Command, CommandV, Poll};
use crate::config::Config;
use crate::messages::{
    AddAnimation,
    Animation,
    CommandError,
    Node,
    RequestAnimationList,
    RequestNodeList,
    ResponseAnimationList,
    ResponseNodeList,
    SetNodeAnimation,
    SetNodeColor,
};
use crate::scheduler::{TICK_MS, ms_per_frame, render_client, spec_emits, spec_out_cmd, spec_step};

/// Milliseconds of silence after which a node is evicted by the sweep.
pub const TIMEOUT_MS: u64 = 30000;

/// Index of the first node with this endpoint, or the length when there
/// is none.
pub open spec fn client_idx(s: Seq<Client>, a: Address) -> int
    decreases s.len(),
{
    if s.len() == 0 {
        0
    } else if s[0].socket_address == a {
        0
    } else {
        1 + client_idx(s.drop_first(), a)
    }
}

/// Whether the registry holds a node at this endpoint.
pub open spec fn has_client(s: Seq<Client>, a: Address) -> bool {
    client_idx(s, a) < s.len()
}

pub proof fn lemma_client_idx(s: Seq<Client>, a: Address)
    ensures
        0 <= client_idx(s, a) <= s.len(),
        client_idx(s, a) < s.len() ==> s[client_idx(s, a)].socket_address == a,
        forall|j: int| 0 <= j < client_idx(s, a) ==> s[j].socket_address != a,
    decreases s.len(),
{
    if s.len() > 0 && s[0].socket_address != a {
        lemma_client_idx(s.drop_first(), a);
        assert forall|j: int| 0 <= j < client_idx(s, a) implies s[j].socket_address != a by {
            if j > 0 {
                assert(s.drop_first()[j - 1] == s[j]);
            }
        }
    }
}

/// Index of the first node whose dotted-decimal address reads `ip`, or
/// the length when there is none: how the control surface names a node.
pub open spec fn client_ip_idx(s: Seq<Client>, ip: Seq<char>) -> int
    decreases s.len(),
{
    if s.len() == 0 {
        0
    } else if s[0].addr_string@ == ip {
        0
    } else {
        1 + client_ip_idx(s.drop_first(), ip)
    }
}

/// Whether some node's dotted-decimal address reads `ip`.
pub open spec fn has_client_ip(s: Seq<Client>, ip: Seq<char>) -> bool {
    client_ip_idx(s, ip) < s.len()
}

pub proof fn lemma_client_ip_idx(s: Seq<Client>, ip: Seq<char>)
    ensures
        0 <= client_ip_idx(s, ip) <= s.len(),
        client_ip_idx(s, ip) < s.len() ==> s[client_ip_idx(s, ip)].addr_string@ == ip,
        forall|j: int| 0 <= j < client_ip_idx(s, ip) ==> s[j].addr_string@ != ip,
    decreases s.len(),
{
    if s.len() > 0 && s[0].addr_string@ != ip {
        lemma_client_ip_idx(s.drop_first(), ip);
        assert forall|j: int| 0 <= j < client_ip_idx(s, ip) implies s[j].addr_string@ != ip by {
            if j > 0 {
                assert(s.drop_first()[j - 1] == s[j]);
            }
        }
    }
}

/// Endpoints unique: the registry's key.
pub open spec fn clients_wf(s: Seq<Client>) -> bool {
    forall|i: int, j: int|
        0 <= i < j < s.len() ==> (#[trigger] s[i].socket_address)
            != (#[trigger] s[j].socket_address)
}

/// A node still inside the liveness window at `now`.
pub open spec fn live_at(c: Client, now: u64) -> bool {
    c.last_reply_received + TIMEOUT_MS >= now
}

/// What a mode-switch leaves behind: only the render mode, the cursor and
/// the accumulator change; the cursor is zeroed, and the accumulator is
/// set to one whole frame interval of the new mode so that the next
/// qualifying tick emits at once.
pub open spec fn mode_switched(old_c: Client, new_c: Client, mode: RenderModeV, acc: u64) -> bool {
    new_c.socket_address == old_c.socket_address && new_c.addr == old_c.addr && new_c.addr_string
        == old_c.addr_string && new_c.last_reply_received == old_c.last_reply_received
        && new_c.short_name == old_c.short_name && new_c.long_name == old_c.long_name
        && new_c.current@ == mode && new_c.current_animation_frame == 0
        && new_c.millis_since_last_frame == acc
}

/// The device service.
#[derive(Debug)]
pub struct Service {
    pub config: Config,
    /// The device registry, keyed by endpoint.
    pub clients: Vec<Client>,
    pub animations: AnimationHandler,
}

impl Service {
    /// The service's invariant: endpoints unique, store well-formed.
    pub open spec fn wf(&self) -> bool {
        clients_wf(self.clients@) && self.animations.wf()
    }

    /// A service with no nodes and no animations yet; discovery and the
    /// asset loader fill it.
    pub fn new(config: Config) -> (r: Service)
        ensures
            r.wf(),
            r.clients@ == Seq::<Client>::empty(),
            r.animations.animations@ == Seq::<Animation>::empty(),
            r.config == config,
    {
        Service { config, clients: Vec::new(), animations: AnimationHandler::default() }
    }

    /// Take one decoded inbound command. A reply from a known endpoint
    /// refreshes its liveness stamp; one from an unknown endpoint
    /// registers the node, unless its name fields are not text, in which
    /// case it is skipped. Every other command is ignored.
    #[verifier::loop_isolation(false)]
    pub fn handle(&mut self, command: Command, addr: Address, now: u64)
        requires
            old(self).wf(),
        ensures
            final(self).wf(),
            final(self).animations == old(self).animations,
            final(self).config == old(self).config,
            !(command is PollReply) ==> final(self).clients@ == old(self).clients@,
            command matches Command::PollReply(reply) ==> ({
                if has_client(old(self).clients@, addr) {
                    final(self).clients@ == old(self).clients@.update(
                        client_idx(old(self).clients@, addr),
                        Client {
                            last_reply_received: now,
                            ..old(self).clients@[client_idx(old(self).clients@, addr)]
                        },
                    )
                } else if names_ok(reply) {
                    final(self).clients@.len() == old(self).clients@.len() + 1
                        && final(self).clients@ == old(self).clients@.push(
                        final(self).clients@.last(),
                    ) && is_fresh_client(final(self).clients@.last(), addr, reply, now)
                } else {
                    final(self).clients@ == old(self).clients@
                }
            }),
    {
        let reply = match command {
            Command::PollReply(reply) => reply,
            _ => {
                return ;
            },
        };
        let ghost s = self.clients@;
        proof {
            lemma_client_idx(s, addr);
        }
        let mut i: usize = 0;
        while i < self.clients.len()
            invariant
                0 <= i <= s.len(),
                s == self.clients@,
                self.animations == old(self).animations,
                self.config == old(self).config,
                0 <= client_idx(s, addr) <= s.len(),
                client_idx(s, addr) < s.len() ==> s[client_idx(s, addr)].socket_address == addr,
                forall|j: int| 0 <= j < i ==> s[j].socket_address != addr,
                clients_wf(s),
            decreases s.len() - i,
        {
            if self.clients[i].socket_address.same(&addr) {
                assert(client_idx(s, addr) == i) by {
                    lemma_client_idx(s, addr);
                }
                let c = &mut self.clients[i];
                c.last_reply_received = now;
                proof {
                    let t = self.clients@;
                    assert(t =~= s.update(
                        i as int,
                        Client { last_reply_received: now, ..s[i as int] },
                    ));
                    assert forall|a: int, b: int|
                        0 <= a < b < t.len() implies (#[trigger] t[a].socket_address)
                        != (#[trigger] t[b].socket_address) by {
                        assert(s[a].socket_address != s[b].socket_address);
                    }
                }
                return ;
            }
            i = i + 1;
        }
        assert(!has_client(s, addr)) by {
            lemma_client_idx(s, addr);
            if client_idx(s, addr) < s.len() {
                assert(s[client_idx(s, addr)].socket_address == addr);
            }
        }
        match Client::new(addr, &reply, now) {
            Ok(c) => {
                let ghost c_g = c;
                self.clients.push(c);
                proof {
                    let t = self.clients@;
                    assert(t =~= s.push(c_g));
                    assert(t.last() == c_g);
                    assert forall|a: int, b: int|
                        0 <= a < b < t.len() implies (#[trigger] t[a].socket_address)
                        != (#[trigger] t[b].socket_address) by {
                        if b < s.len() {
                            assert(s[a].socket_address != s[b].socket_address);
                        } else {
                            assert(t[b] == c_g);
                            assert(s[a].socket_address != addr);
                        }
                    }
                }
            },
            Err(_) => {},
        }
    }

    /// Evict every node whose last reply is older than the liveness
    /// window; every younger node stays, in order. The only place nodes
    /// are removed.
    #[verifier::loop_isolation(false)]
    #[verifier::rlimit(30)]
    pub fn sweep(&mut self, now: u64)
        requires
            old(self).wf(),
        ensures
            final(self).wf(),
            final(self).animations == old(self).animations,
            final(self).config == old(self).config,
            final(self).clients@ == old(self).clients@.filter(|c: Client| live_at(c, now)),
    {
        let ghost s = self.clients@;
        let ghost pred = |c: Client| live_at(c, now);
        let mut i: usize = 0;
        let ghost k: int = 0;
        proof {
            reveal_with_fuel(Seq::filter, 2);
            assert(s.take(0int) =~= Seq::<Client>::empty());
            assert(s.take(0int).filter(pred) =~= Seq::<Client>::empty());
        }
        while i < self.clients.len()
            invariant
                0 <= i as int <= k <= s.len(),
                self.clients@ == s.take(k).filter(pred) + s.skip(k),
                i as int == s.take(k).filter(pred).len(),
                s == old(self).clients@,
                clients_wf(self.clients@),
                self.animations == old(self).animations,
                self.config == old(self).config,
            decreases s.len() - k,
        {
            proof {
                assert(self.clients@[i as int] == s.skip(k)[0]);
                assert(s.skip(k)[0] == s[k]);
            }
            let last = self.clients[i].last_reply_received;
            let live = if last >= now {
                true
            } else {
                now - last <= TIMEOUT_MS
            };
            assert(live == live_at(s[k], now));
            proof {
                reveal_with_fuel(Seq::filter, 2);
                assert(s.take(k + 1).drop_last() =~= s.take(k));
                assert(s.take(k + 1).last() == s[k]);
                assert(s.take(k + 1).filter(pred) == s.take(k).filter(pred) + (if pred(s[k]) {
                    seq![s[k]]
                } else {
                    Seq::<Client>::empty()
                }));
            }
            if live {
                i = i + 1;
                proof {
                    assert(self.clients@ =~= s.take(k + 1).filter(pred) + s.skip(k + 1));
                }
            } else {
                let ghost u = self.clients@;
                self.clients.remove(i);
                proof {
                    assert(self.clients@ =~= s.take(k + 1).filter(pred) + s.skip(k + 1));
                    let t = self.clients@;
                    assert forall|a: int, b: int|
                        0 <= a < b < t.len() implies (#[trigger] t[a].socket_address)
                        != (#[trigger] t[b].socket_address) by {
                        let a2: int = if a < i as int { a } else { a + 1 };
                        let b2: int = if b < i as int { b } else { b + 1 };
                        assert(t[a] == u[a2]);
                        assert(t[b] == u[b2]);
                        assert(u[a2].socket_address != u[b2].socket_address);
                    }
                }
            }
            proof {
                k = k + 1;
            }
        }
        proof {
            assert(s.skip(s.len() as int) =~= Seq::<Client>::empty());
            assert(s.take(s.len() as int) =~= s);
            assert(self.clients@ =~= s.filter(pred));
        }
    }

    /// The discovery polls to broadcast this second, one per configured
    /// target.
    #[verifier::loop_isolation(false)]
    pub fn tick(&self) -> (polls: Vec<(Address, Command)>)
        ensures
            polls@.len() == self.config.broadcasts@.len(),
            forall|i: int|
                0 <= i < polls@.len() ==> (#[trigger] polls@[i]).0 == self.config.broadcasts@[i]
                    && polls@[i].1@ == CommandV::Poll(crate::codec::default_poll_v()),
    {
        let mut polls: Vec<(Address, Command)> = Vec::new();
        let mut i: usize = 0;
        while i < self.config.broadcasts.len()
            invariant
                0 <= i <= self.config.broadcasts@.len(),
                polls@.len() == i,
                forall|j: int|
                    0 <= j < i ==> (#[trigger] polls@[j]).0 == self.config.broadcasts@[j]
                        && polls@[j].1@ == CommandV::Poll(crate::codec::default_poll_v()),
            decreases self.config.broadcasts@.len() - i,
        {
            polls.push((self.config.broadcasts[i], Command::Poll(Poll::default())));
            i = i + 1;
        }
        polls
    }
}

/// The emissions of a list of sends, at the view level.
pub open spec fn cmds_view(s: Seq<(Address, Command)>) -> Seq<(Address, CommandV)> {
    s.map_values(|t: (Address, Command)| (t.0, t.1@))
}

/// The Output commands one render tick produces, in registry order: one
/// per node whose accumulated time reaches its frame interval.
pub open spec fn spec_emissions(cs: Seq<Client>, anims: Seq<Animation>) -> Seq<
    (Address, CommandV),
>
    decreases cs.len(),
{
    if cs.len() == 0 {
        Seq::empty()
    } else {
        spec_emissions(cs.drop_last(), anims) + (if spec_emits(cs.last(), anims) {
            seq![(cs.last().socket_address, spec_out_cmd(cs.last(), anims))]
        } else {
            Seq::empty()
        })
    }
}

impl Service {
    /// Run one render tick: step every node's accumulator and cursor, and
    /// hand back the Output datagram commands to transmit, each with its
    /// node's endpoint. Transmission is the caller's; a node is never
    /// removed here, whatever happens to the sends.
    #[verifier::loop_isolation(false)]
    pub fn render(&mut self) -> (sends: Vec<(Address, Command)>)
        requires
            old(self).wf(),
            forall|i: int|
                0 <= i < old(self).clients@.len()
                    ==> (#[trigger] old(self).clients@[i]).millis_since_last_frame + TICK_MS
                    <= u64::MAX,
        ensures
            final(self).wf(),
            final(self).animations == old(self).animations,
            final(self).config == old(self).config,
            final(self).clients@.len() == old(self).clients@.len(),
            forall|i: int|
                0 <= i < old(self).clients@.len() ==> final(self).clients@[i] == spec_step(
                    #[trigger] old(self).clients@[i],
                    old(self).animations.animations@,
                ),
            cmds_view(sends@) == spec_emissions(
                old(self).clients@,
                old(self).animations.animations@,
            ),
    {
        let ghost s = self.clients@;
        let ghost anims = self.animations.animations@;
        let mut sends: Vec<(Address, Command)> = Vec::new();
        let mut i: usize = 0;
        proof {
            assert(s.take(0int) =~= Seq::<Client>::empty());
            assert(cmds_view(sends@) =~= spec_emissions(s.take(0int), anims));
        }
        while i < self.clients.len()
            invariant
                0 <= i <= s.len(),
                self.clients@.len() == s.len(),
                self.animations == old(self).animations,
                self.config == old(self).config,
                forall|j: int| 0 <= j < i ==> self.clients@[j] == spec_step(#[trigger] s[j], anims),
                forall|j: int| i <= j < s.len() ==> self.clients@[j] == #[trigger] s[j],
                cmds_view(sends@) == spec_emissions(s.take(i as int), anims),
            decreases s.len() - i,
        {
            let addr = self.clients[i].socket_address;
            proof {
                assert(self.clients@[i as int] == s[i as int]);
                assert(old(self).clients@[i as int] == s[i as int]);
            }
            let r = render_client(&mut self.clients[i], &self.animations);
            proof {
                assert(s.take(i as int + 1).drop_last() =~= s.take(i as int));
                assert(s.take(i as int + 1).last() == s[i as int]);
            }
            match r {
                Some(cmd) => {
                    sends.push((addr, cmd));
                    proof {
                        assert(cmds_view(sends@) =~= spec_emissions(s.take(i as int + 1), anims));
                    }
                },
                None => {
                    proof {
                        assert(cmds_view(sends@) =~= spec_emissions(s.take(i as int + 1), anims));
                    }
                },
            }
            i = i + 1;
        }
        proof {
            assert(s.take(s.len() as int) =~= s);
            let t = self.clients@;
            assert forall|a: int, b: int|
                0 <= a < b < t.len() implies (#[trigger] t[a].socket_address)
                != (#[trigger] t[b].socket_address) by {
                assert(spec_step(s[a], anims).socket_address == s[a].socket_address);
                assert(spec_step(s[b], anims).socket_address == s[b].socket_address);
                assert(s[a].socket_address != s[b].socket_address);
            }
        }
        sends
    }

    /// Record that transmitting to a node failed: its cursor is reset and
    /// nothing else changes — send failures never evict a node.
    #[verifier::loop_isolation(false)]
    pub fn note_send_failure(&mut self, addr: Address)
        requires
            old(self).wf(),
        ensures
            final(self).wf(),
            final(self).animations == old(self).animations,
            final(self).config == old(self).config,
            has_client(old(self).clients@, addr) ==> final(self).clients@
                == old(self).clients@.update(
                client_idx(old(self).clients@, addr),
                Client {
                    current_animation_frame: 0,
                    ..old(self).clients@[client_idx(old(self).clients@, addr)]
                },
            ),
            !has_client(old(self).clients@, addr) ==> final(self).clients@ == old(self).clients@,
    {
        let ghost s = self.clients@;
        proof {
            lemma_client_idx(s, addr);
        }
        let mut i: usize = 0;
        while i < self.clients.len()
            invariant
                0 <= i <= s.len(),
                s == self.clients@,
                self.animations == old(self).animations,
                self.config == old(self).config,
                forall|j: int| 0 <= j < i ==> s[j].socket_address != addr,
            decreases s.len() - i,
        {
            if self.clients[i].socket_address.same(&addr) {
                assert(client_idx(s, addr) == i);
                let c = &mut self.clients[i];
                c.current_animation_frame = 0;
                proof {
                    let t = self.clients@;
                    assert(t =~= s.update(
                        i as int,
                        Client { current_animation_frame: 0, ..s[i as int] },
                    ));
                    assert forall|a: int, b: int|
                        0 <= a < b < t.len() implies (#[trigger] t[a].socket_address)
                        != (#[trigger] t[b].socket_address) by {
                        assert(s[a].socket_address != s[b].socket_address);
                    }
                }
                return ;
            }
            i = i + 1;
        }
        assert(!has_client(s, addr)) by {
            if client_idx(s, addr) < s.len() {
                assert(s[client_idx(s, addr)].socket_address == addr);
            }
        }
    }
}

/// Whether a node summary reports exactly one node's state.
pub open spec fn summarizes(n: Node, c: Client) -> bool {
    n.ip@ == c.addr_string@ && n.short_name@ == c.short_name@ && n.long_name@ == c.long_name@
        && n.current@ == c.current@
}

impl Service {
    /// Snapshot of the known nodes, in registry order. Never fails.
    pub fn list_nodes(&self, _request: RequestNodeList) -> (r: ResponseNodeList)
        ensures
            r.nodes@.len() == self.clients@.len(),
            forall|i: int|
                0 <= i < r.nodes@.len() ==> summarizes(#[trigger] r.nodes@[i], self.clients@[i]),
    {
        let mut nodes: Vec<Node> = Vec::new();
        let mut i: usize = 0;
        while i < self.clients.len()
            invariant
                0 <= i <= self.clients@.len(),
                nodes@.len() == i,
                forall|j: int|
                    0 <= j < i ==> summarizes(#[trigger] nodes@[j], self.clients@[j]),
            decreases self.clients@.len() - i,
        {
            nodes.push(self.clients[i].get_node());
            i = i + 1;
        }
        ResponseNodeList { nodes }
    }

    /// Snapshot of the stored animations, in store order. Never fails.
    pub fn list_animations(&self, _request: RequestAnimationList) -> (r: ResponseAnimationList)
        ensures
            r.animations@.len() == self.animations.animations@.len(),
            forall|i: int|
                0 <= i < r.animations@.len() ==> (#[trigger] r.animations@[i]).name@
                    == self.animations.animations@[i].name@ && r.animations@[i].fps
                    == self.animations.animations@[i].fps && r.animations@[i].frames@
                    == self.animations.animations@[i].frames@,
    {
        let mut animations: Vec<Animation> = Vec::new();
        let mut i: usize = 0;
        while i < self.animations.animations.len()
            invariant
                0 <= i <= self.animations.animations@.len(),
                animations@.len() == i,
                forall|j: int|
                    0 <= j < i ==> (#[trigger] animations@[j]).name@
                        == self.animations.animations@[j].name@ && animations@[j].fps
                        == self.animations.animations@[j].fps && animations@[j].frames@
                        == self.animations.animations@[j].frames@,
            decreases self.animations.animations@.len() - i,
        {
            animations.push(self.animations.animations[i].duplicate());
            i = i + 1;
        }
        ResponseAnimationList { animations }
    }

    /// Switch a node to a stored animation, by the node's dotted-decimal
    /// address and the animation's name. Fails with `NotFound` when
    /// either is unknown; on success the node's cursor is reset and its
    /// accumulator holds one whole frame interval, so the very next tick
    /// emits a frame.
    #[verifier::loop_isolation(false)]
    pub fn set_node_animation(&mut self, msg: SetNodeAnimation) -> (r: Result<(), CommandError>)
        requires
            old(self).wf(),
        ensures
            final(self).wf(),
            final(self).animations == old(self).animations,
            final(self).config == old(self).config,
            r is Ok <==> has_anim(old(self).animations.animations@, msg.animation_name@)
                && has_client_ip(old(self).clients@, msg.ip@),
            r matches Err(e) ==> e == CommandError::NotFound
                && final(self).clients@ == old(self).clients@,
            r is Ok ==> ({
                let ii = client_ip_idx(old(self).clients@, msg.ip@);
                let anims = old(self).animations.animations@;
                let fps = anims[anim_idx(anims, msg.animation_name@)].fps;
                final(self).clients@ == old(self).clients@.update(ii, final(self).clients@[ii])
                    && mode_switched(
                    old(self).clients@[ii],
                    final(self).clients@[ii],
                    RenderModeV::Animation(msg.animation_name@),
                    ms_per_frame(fps) as u64,
                ) && spec_emits(final(self).clients@[ii], anims)
            }),
    {
        let ghost anims = self.animations.animations@;
        proof {
            crate::animation_handler::lemma_anim_idx(anims, msg.animation_name@);
        }
        let fps: u8 = match self.animations.find(&msg.animation_name) {
            Some(a) => a.fps,
            None => {
                return Err(CommandError::NotFound);
            },
        };
        assert(fps == anims[anim_idx(anims, msg.animation_name@)].fps);
        assert(fps >= 1);
        let mpf: u64 = 1000u64 / (fps as u64);
        let ghost s = self.clients@;
        proof {
            lemma_client_ip_idx(s, msg.ip@);
        }
        let mut i: usize = 0;
        while i < self.clients.len()
            invariant
                0 <= i <= s.len(),
                s == self.clients@,
                self.animations == old(self).animations,
                self.config == old(self).config,
                forall|j: int| 0 <= j < i ==> s[j].addr_string@ != msg.ip@,
            decreases s.len() - i,
        {
            if self.clients[i].addr_string == msg.ip {
                assert(client_ip_idx(s, msg.ip@) == i);
                let c = &mut self.clients[i];
                c.current = RenderMode::Animation(msg.animation_name.clone());
                c.current_animation_frame = 0;
                c.millis_since_last_frame = mpf;
                proof {
                    let t = self.clients@;
                    let nc = t[i as int];
                    assert(t =~= s.update(i as int, nc));
                    assert(mode_switched(
                        s[i as int],
                        nc,
                        RenderModeV::Animation(msg.animation_name@),
                        mpf,
                    ));
                    assert(spec_emits(nc, anims)) by {
                        let a = anims[anim_idx(anims, msg.animation_name@)];
                        assert(a.fps >= 1 && a.frames@.len() >= 1);
                        assert(crate::scheduler::spec_resolve(nc, anims) is Some);
                    }
                    assert forall|a: int, b: int|
                        0 <= a < b < t.len() implies (#[trigger] t[a].socket_address)
                        != (#[trigger] t[b].socket_address) by {
                        assert(s[a].socket_address != s[b].socket_address);
                    }
                }
                return Ok(());
            }
            i = i + 1;
        }
        assert(!has_client_ip(s, msg.ip@)) by {
            if client_ip_idx(s, msg.ip@) < s.len() {
                assert(s[client_ip_idx(s, msg.ip@)].addr_string@ == msg.ip@);
            }
        }
        Err(CommandError::NotFound)
    }
}

/// Value of one hexadecimal digit character, or a negative marker.
pub open spec fn spec_hex_val(c: char) -> int {
    if c == '0' {
        0
    } else if c == '1' {
        1
    } else if c == '2' {
        2
    } else if c == '3' {
        3
    } else if c == '4' {
        4
    } else if c == '5' {
        5
    } else if c == '6' {
        6
    } else if c == '7' {
        7
    } else if c == '8' {
        8
    } else if c == '9' {
        9
    } else if c == 'a' || c == 'A' {
        10
    } else if c == 'b' || c == 'B' {
        11
    } else if c == 'c' || c == 'C' {
        12
    } else if c == 'd' || c == 'D' {
        13
    } else if c == 'e' || c == 'E' {
        14
    } else if c == 'f' || c == 'F' {
        15
    } else {
        -1
    }
}

/// The three color channels six hexadecimal digits spell, two digits per
/// channel: red, green, blue.
pub open spec fn spec_color_of(s: Seq<char>) -> Option<(u8, u8, u8)> {
    if s.len() == 6 && (forall|i: int| 0 <= i < 6 ==> spec_hex_val(#[trigger] s[i]) >= 0) {
        Some(
            (
                (spec_hex_val(s[0]) * 16 + spec_hex_val(s[1])) as u8,
                (spec_hex_val(s[2]) * 16 + spec_hex_val(s[3])) as u8,
                (spec_hex_val(s[4]) * 16 + spec_hex_val(s[5])) as u8,
            ),
        )
    } else {
        None
    }
}

fn hex_val(c: char) -> (r: i8)
    ensures
        r == spec_hex_val(c),
{
    match c {
        '0' => 0,
        '1' => 1,
        '2' => 2,
        '3' => 3,
        '4' => 4,
        '5' => 5,
        '6' => 6,
        '7' => 7,
        '8' => 8,
        '9' => 9,
        'a' => 10,
        'A' => 10,
        'b' => 11,
        'B' => 11,
        'c' => 12,
        'C' => 12,
        'd' => 13,
        'D' => 13,
        'e' => 14,
        'E' => 14,
        'f' => 15,
        'F' => 15,
        _ => -1,
    }
}

/// Parse a six-hexadecimal-digit color string into its three channels.
pub fn parse_hex_color(s: &String) -> (r: Option<(u8, u8, u8)>)
    ensures
        r == spec_color_of(s@),
{
    let st = s.as_str();
    if st.unicode_len() != 6 {
        return None;
    }
    let v0 = hex_val(st.get_char(0));
    let v1 = hex_val(st.get_char(1));
    let v2 = hex_val(st.get_char(2));
    let v3 = hex_val(st.get_char(3));
    let v4 = hex_val(st.get_char(4));
    let v5 = hex_val(st.get_char(5));
    if v0 < 0 || v1 < 0 || v2 < 0 || v3 < 0 || v4 < 0 || v5 < 0 {
        return None;
    }
    proof {
        assert forall|i: int| 0 <= i < 6 implies spec_hex_val(#[trigger] s@[i]) >= 0 by {
            if i == 0 {
            } else if i == 1 {
            } else if i == 2 {
            } else if i == 3 {
            } else if i == 4 {
            } else {
                assert(i == 5);
            }
        }
    }
    Some(
        (
            (v0 as u8) * 16 + (v1 as u8),
            (v2 as u8) * 16 + (v3 as u8),
            (v4 as u8) * 16 + (v5 as u8),
        ),
    )
}

impl Service {
    /// Switch a node to a static color, by the node's dotted-decimal
    /// address and a six-hexadecimal-digit color. Fails with
    /// `InvalidInput` when the color does not parse and `NotFound` when
    /// no node has that address; on success the node's cursor is reset
    /// and its accumulator holds one whole frame interval — a color
    /// renders as a single-frame sequence at one frame per second — so
    /// the very next tick emits a frame.
    #[verifier::loop_isolation(false)]
    pub fn set_node_color(&mut self, msg: SetNodeColor) -> (r: Result<(), CommandError>)
        requires
            old(self).wf(),
        ensures
            final(self).wf(),
            final(self).animations == old(self).animations,
            final(self).config == old(self).config,
            r is Ok <==> spec_color_of(msg.color_name@) is Some && has_client_ip(
                old(self).clients@,
                msg.ip@,
            ),
            r matches Err(e) ==> final(self).clients@ == old(self).clients@ && e == (
            if spec_color_of(msg.color_name@) is None {
                CommandError::InvalidInput
            } else {
                CommandError::NotFound
            }),
            r is Ok ==> ({
                let ii = client_ip_idx(old(self).clients@, msg.ip@);
                let rgb = spec_color_of(msg.color_name@)->Some_0;
                final(self).clients@ == old(self).clients@.update(ii, final(self).clients@[ii])
                    && mode_switched(
                    old(self).clients@[ii],
                    final(self).clients@[ii],
                    RenderModeV::Color(rgb.0, rgb.1, rgb.2),
                    1000u64,
                ) && spec_emits(final(self).clients@[ii], old(self).animations.animations@)
            }),
    {
        let (red, green, blue) = match parse_hex_color(&msg.color_name) {
            Some(rgb) => rgb,
            None => {
                return Err(CommandError::InvalidInput);
            },
        };
        let ghost s = self.clients@;
        proof {
            lemma_client_ip_idx(s, msg.ip@);
        }
        let mut i: usize = 0;
        while i < self.clients.len()
            invariant
                0 <= i <= s.len(),
                s == self.clients@,
                self.animations == old(self).animations,
                self.config == old(self).config,
                forall|j: int| 0 <= j < i ==> s[j].addr_string@ != msg.ip@,
            decreases s.len() - i,
        {
            if self.clients[i].addr_string == msg.ip {
                assert(client_ip_idx(s, msg.ip@) == i);
                let c = &mut self.clients[i];
                c.current = RenderMode::Color(red, green, blue);
                c.current_animation_frame = 0;
                c.millis_since_last_frame = 1000;
                proof {
                    let t = self.clients@;
                    let nc = t[i as int];
                    assert(t =~= s.update(i as int, nc));
                    assert(mode_switched(
                        s[i as int],
                        nc,
                        RenderModeV::Color(red, green, blue),
                        1000u64,
                    ));
                    assert forall|a: int, b: int|
                        0 <= a < b < t.len() implies (#[trigger] t[a].socket_address)
                        != (#[trigger] t[b].socket_address) by {
                        assert(s[a].socket_address != s[b].socket_address);
                    }
                }
                return Ok(());
            }
            i = i + 1;
        }
        assert(!has_client_ip(s, msg.ip@)) by {
            if client_ip_idx(s, msg.ip@) < s.len() {
                assert(s[client_ip_idx(s, msg.ip@)].addr_string@ == msg.ip@);
            }
        }
        Err(CommandError::NotFound)
    }

    /// Ingest an uploaded frame bundle into the store under its name,
    /// replacing any animation of the same name. Succeeds on exactly the
    /// well-formed bundles; every other bundle fails with `InvalidFormat`
    /// and leaves the store unchanged.
    pub fn add_animation(&mut self, msg: AddAnimation) -> (r: Result<(), CommandError>)
        requires
            old(self).wf(),
        ensures
            final(self).wf(),
            final(self).clients@ == old(self).clients@,
            final(self).config == old(self).config,
            r is Ok <==> bundle_ok(msg.files@),
            r matches Err(e) ==> e == CommandError::InvalidFormat
                && final(self).animations.animations@ == old(self).animations.animations@,
            r is Ok ==> exists|a: Animation|
                loaded_bundle(a, msg.name@, msg.files@) && #[trigger] upserted(
                    old(self).animations.animations@,
                    final(self).animations.animations@,
                    a,
                ),
    {
        let ghost before = self.animations.animations@;
        let r = self.animations.load(msg.name.as_str(), &msg.files);
        proof {
            if r is Ok {
                let a0 = choose|a: Animation|
                    loaded_bundle(a, msg.name@, msg.files@) && #[trigger] upserted(
                        before,
                        self.animations.animations@,
                        a,
                    );
                assert(loaded_bundle(a0, msg.name@, msg.files@) && upserted(
                    before,
                    self.animations.animations@,
                    a0,
                ));
            }
        }
        r
    }
}

/// After a sweep at `now`, exactly the nodes inside the liveness window
/// remain: every node seen within the window stays in the registry, and
/// every node of the swept registry was there before and was seen within
/// the window.
pub proof fn lemma_sweep_membership(s: Seq<Client>, kept: Seq<Client>, now: u64)
    requires
        kept == s.filter(|c: Client| live_at(c, now)),
    ensures
        forall|i: int| 0 <= i < s.len() && live_at(#[trigger] s[i], now) ==> kept.contains(s[i]),
        forall|c: Client| #[trigger] kept.contains(c) ==> s.contains(c) && live_at(c, now),
{
    let pred = |c: Client| live_at(c, now);
    assert forall|i: int|
        0 <= i < s.len() && live_at(#[trigger] s[i], now) implies kept.contains(s[i]) by {
        s.lemma_filter_contains(pred, i);
    }
    assert forall|c: Client| #[trigger] kept.contains(c) implies s.contains(c) && live_at(
        c,
        now,
    ) by {
        s.lemma_filter_contains_rev(pred, c);
        let j = choose|j: int| 0 <= j < s.filter(pred).len() && s.filter(pred)[j] == c;
        s.lemma_filter_pred(pred, j);
    }
}

} // verus!