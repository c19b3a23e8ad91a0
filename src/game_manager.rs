use vstd::prelude::*;

use rand::Rng;

use vstd::arithmetic::div_mod::lemma_fundamental_div_mod_converse;

use crate::player::{
    combined_radius, lemma_merge_with_nothing, merged_radius, offset, position_after_move, Player, START_RADIUS,
};
use crate::vector::{Vector2D, COORD_MAX};

verus! {

/// The food population that every tick restores.
pub const FOOD_FLOOR: usize = 50;

/// Width of the arena in which food is placed, in fixed units.
pub const ARENA_WIDTH: i64 = 800_000_000;

/// Height of the arena in which food is placed, in fixed units.
pub const ARENA_HEIGHT: i64 = 600_000_000;

/// Smallest radius of new food, inclusive.
pub const FOOD_MIN_RADIUS: u32 = 2_000_000;

/// Largest radius of new food, exclusive.
pub const FOOD_MAX_RADIUS: u32 = 6_000_000;

/// A player at or below this radius (a hundredth of a world unit) is dead.
pub const DEAD_RADIUS: u32 = 10_000;

/// An intent sent by a player.
#[derive(Debug)]
pub enum PlayerCommand {
    Move { position: Vector2D },
    Join { name: String },
}

/// A player's command together with the id of the player who sent it.
#[derive(Debug)]
pub struct PlayerMessage {
    pub id: u32,
    pub command: PlayerCommand,
}

/// A command that the game issues to itself.
#[derive(Debug)]
pub enum InternalCommand {
    Update,
    AddPlayer { id: u32, name: String },
    RemovePlayer { id: u32 },
}

/// Everything that enters the single command intake.
#[derive(Debug)]
pub enum Command {
    PlayerCommand(PlayerMessage),
    InternalCommand(InternalCommand),
}

/// A message from the game to its clients.
#[derive(Debug)]
pub enum MessageToClient {
    JoinSuccess { id: u32 },
    PlayerEaten { id: u32 },
    State { players: Vec<Player>, food: Vec<Food> },
}

/// What the runtime around the game must do after a command was applied.
#[derive(Debug)]
pub enum Effect {
    /// Send `message` to the player `id` alone.
    SendToPlayer { id: u32, message: MessageToClient },
    /// Send `message` to every subscriber.
    Broadcast { message: MessageToClient },
    /// Put `command` at the back of the command intake.
    Enqueue { command: Command },
}

/// A food item: a disc that a player grows by eating.
#[derive(Clone, Copy, Debug, PartialEq, Eq, Structural)]
pub struct Food {
    pub position: Vector2D,
    pub radius: u32,
}

impl Food {
    /// A food item as the arena creates it.
    pub open spec fn wf(self) -> bool {
        &&& FOOD_MIN_RADIUS <= self.radius < FOOD_MAX_RADIUS
        &&& self.radius <= self.position.x < ARENA_WIDTH - self.radius
        &&& self.radius <= self.position.y < ARENA_HEIGHT - self.radius
    }
}

/// All players lie in the world.
pub open spec fn players_wf(ps: Seq<Player>) -> bool {
    forall|i: int| 0 <= i < ps.len() ==> (#[trigger] ps[i]).wf()
}

/// All food items are as the arena creates them.
pub open spec fn food_wf(fs: Seq<Food>) -> bool {
    forall|i: int| 0 <= i < fs.len() ==> (#[trigger] fs[i]).wf()
}

/// `v` limited to the world's square.
pub open spec fn clamp_to_world(v: Vector2D) -> Vector2D {
    Vector2D { x: clamp_coord(v.x as int) as i64, y: clamp_coord(v.y as int) as i64 }
}

/// `c` limited to the world's coordinate range.
pub open spec fn clamp_coord(c: int) -> int {
    if c < -COORD_MAX {
        -COORD_MAX as int
    } else if c > COORD_MAX {
        COORD_MAX as int
    } else {
        c
    }
}

/// `p` with its radius replaced by `r`.
pub open spec fn with_radius(p: Player, r: u32) -> Player {
    Player { id: p.id, position: p.position, radius: r, name: p.name }
}

/// `p` with its position replaced by `v`.
pub open spec fn with_position(p: Player, v: Vector2D) -> Player {
    Player { id: p.id, position: v, radius: p.radius, name: p.name }
}

/// Some player in `ps` has id `id`.
pub open spec fn has_id(ps: Seq<Player>, id: u32) -> bool {
    exists|k: int| 0 <= k < ps.len() && ps[k].id == id
}

/// The notice to player `id` that it was eaten, when it is still listed in
/// `ps`; nothing otherwise.
pub open spec fn eaten_notice(ps: Seq<Player>, id: u32) -> Seq<Effect> {
    if has_id(ps, id) {
        seq![Effect::SendToPlayer { id, message: MessageToClient::PlayerEaten { id } }]
    } else {
        seq![]
    }
}

/// The players that remain when those with id `id` leave.
pub open spec fn without_id(ps: Seq<Player>, id: u32) -> Seq<Player> {
    ps.filter(|p: Player| p.id != id)
}

/// Bodies at `p` and `q` with radii `rp` and `rq` overlap: the distance
/// between their centres, rounded down, is below the sum of their radii.
pub open spec fn overlaps(p: Vector2D, rp: nat, q: Vector2D, rq: nat) -> bool {
    offset(q, p).length() < rp + rq
}

/// The players after the ordered pair `(i, j)` was resolved: when two
/// distinct players overlap, the first absorbs the second if its radius is
/// strictly greater, and is absorbed by it otherwise; the absorbed one is left
/// with radius zero.
pub open spec fn collide_pair(ps: Seq<Player>, i: int, j: int) -> Seq<Player> {
    let p = ps[i];
    let q = ps[j];
    if p.id != q.id && overlaps(p.position, p.radius as nat, q.position, q.radius as nat) {
        let r = merged_radius(p.radius as nat, q.radius as nat) as u32;
        if p.radius > q.radius {
            ps.update(i, with_radius(p, r)).update(j, with_radius(q, 0))
        } else {
            ps.update(j, with_radius(q, r)).update(i, with_radius(p, 0))
        }
    } else {
        ps
    }
}

/// The players after the first `k` ordered pairs, taken row by row, were resolved.
pub open spec fn collisions_upto(ps: Seq<Player>, k: nat) -> Seq<Player>
    decreases k,
{
    if k == 0 {
        ps
    } else {
        let prev = collisions_upto(ps, (k - 1) as nat);
        collide_pair(prev, (k - 1) as int / ps.len() as int, (k - 1) as int % ps.len() as int)
    }
}

/// The players after every ordered pair of them was resolved, in order.
pub open spec fn after_collisions(ps: Seq<Player>) -> Seq<Player> {
    collisions_upto(ps, ps.len() * ps.len())
}

/// The radius of a player of radius `r` at `pos`, and the food left, after
/// the food items at indices `j - 1` down to `0` were checked in turn: each
/// one it overlaps is eaten and removed.
pub open spec fn eat_food(pos: Vector2D, r: u32, food: Seq<Food>, j: int) -> (u32, Seq<Food>)
    decreases j,
{
    if j <= 0 {
        (r, food)
    } else {
        let f = food[j - 1];
        if overlaps(pos, r as nat, f.position, f.radius as nat) {
            eat_food(pos, merged_radius(r as nat, f.radius as nat) as u32, food.remove(j - 1), j - 1)
        } else {
            eat_food(pos, r, food, j - 1)
        }
    }
}

/// The players and the food after the players at indices `i - 1` down to
/// `0` each ate, in turn, all the food they overlap.
pub open spec fn feed_players(ps: Seq<Player>, food: Seq<Food>, i: int) -> (Seq<Player>, Seq<Food>)
    decreases i,
{
    if i <= 0 {
        (ps, food)
    } else {
        let p = ps[i - 1];
        let eaten = eat_food(p.position, p.radius, food, food.len() as int);
        feed_players(ps.update(i - 1, with_radius(p, eaten.0)), eaten.1, i - 1)
    }
}

/// The players and the food after every player ate.
pub open spec fn after_feeding(ps: Seq<Player>, food: Seq<Food>) -> (Seq<Player>, Seq<Food>) {
    feed_players(ps, food, ps.len() as int)
}

/// A player of this radius is dead.
pub open spec fn is_dead(p: Player) -> bool {
    p.radius <= DEAD_RADIUS
}

/// The command that removes player `id`.
pub open spec fn removal_of(id: u32) -> Effect {
    Effect::Enqueue { command: Command::InternalCommand(InternalCommand::RemovePlayer { id }) }
}

/// One removal command for each dead player, in the players' order.
pub open spec fn reap_commands(ps: Seq<Player>) -> Seq<Effect>
    decreases ps.len(),
{
    if ps.len() == 0 {
        seq![]
    } else {
        let rest = reap_commands(ps.drop_last());
        if is_dead(ps.last()) {
            rest.push(removal_of(ps.last().id))
        } else {
            rest
        }
    }
}

/// `after` is `before` once the first player with id `id` moved one step
/// toward `position` limited to the world; it is `before` when no player has
/// that id.
pub open spec fn moved(before: Seq<Player>, after: Seq<Player>, id: u32, position: Vector2D) -> bool {
    &&& (forall|i: int| 0 <= i < before.len() ==> before[i].id != id) ==> after == before
    &&& forall|i: int|
        0 <= i < before.len() && before[i].id == id && (forall|j: int|
            0 <= j < i ==> before[j].id != id) ==> after == before.update(
            i,
            with_position(
                before[i],
                position_after_move(before[i].position, before[i].radius as nat, clamp_to_world(position)),
            ),
        )
}

/// A player that has just joined.
pub open spec fn joined(id: u32, name: String) -> Player {
    Player { id, position: Vector2D { x: 0, y: 0 }, radius: START_RADIUS, name }
}

/// `e` broadcasts the state made of the players `ps` and the food `fs`.
pub open spec fn is_snapshot(e: Effect, ps: Seq<Player>, fs: Seq<Food>) -> bool {
    match e {
        Effect::Broadcast { message: MessageToClient::State { players, food } } => players@ == ps
            && food@ == fs,
        _ => false,
    }
}

/// What a tick does: `ps2` and `fs2` are the players and the food after a
/// tick from `ps` and `fs`, and `effects` are the removal commands for the
/// dead followed by the snapshot of the new state.
pub open spec fn ticked(
    ps: Seq<Player>,
    fs: Seq<Food>,
    ps2: Seq<Player>,
    fs2: Seq<Food>,
    effects: Seq<Effect>,
) -> bool {
    let fed = after_feeding(after_collisions(ps), fs);
    &&& ps2 == fed.0
    &&& fs2.take(fed.1.len() as int) == fed.1
    &&& fs2.len() == if fed.1.len() < FOOD_FLOOR {
        FOOD_FLOOR as nat
    } else {
        fed.1.len()
    }
    &&& fs2.len() >= FOOD_FLOOR
    &&& effects.len() == reap_commands(ps2).len() + 1
    &&& effects.take(effects.len() - 1) == reap_commands(ps2)
    &&& is_snapshot(effects.last(), ps2, fs2)
}

/// What an internal command does to the players `ps` and the food `fs`,
/// giving `ps2`, `fs2` and `effects`.
pub open spec fn applied_internal(
    cmd: InternalCommand,
    ps: Seq<Player>,
    fs: Seq<Food>,
    ps2: Seq<Player>,
    fs2: Seq<Food>,
    effects: Seq<Effect>,
) -> bool {
    match cmd {
        InternalCommand::Update => ticked(ps, fs, ps2, fs2, effects),
        InternalCommand::AddPlayer { id, name } => {
            &&& ps2 == ps.push(joined(id, name))
            &&& fs2 == fs
            &&& effects == seq![
                Effect::SendToPlayer { id, message: MessageToClient::JoinSuccess { id } },
            ]
        },
        InternalCommand::RemovePlayer { id } => {
            &&& ps2 == without_id(ps, id)
            &&& fs2 == fs
            &&& effects == eaten_notice(ps, id)
        },
    }
}

/// What a player's command does: a move moves that player and says
/// nothing; a join adds the player as `AddPlayer` does.
pub open spec fn applied_player(
    msg: PlayerMessage,
    ps: Seq<Player>,
    fs: Seq<Food>,
    ps2: Seq<Player>,
    fs2: Seq<Food>,
    effects: Seq<Effect>,
) -> bool {
    match msg.command {
        PlayerCommand::Move { position } => {
            &&& moved(ps, ps2, msg.id, position)
            &&& fs2 == fs
            &&& effects.len() == 0
        },
        PlayerCommand::Join { name } => applied_internal(
            InternalCommand::AddPlayer { id: msg.id, name },
            ps,
            fs,
            ps2,
            fs2,
            effects,
        ),
    }
}

/// What any command does.
pub open spec fn applied(
    command: Command,
    ps: Seq<Player>,
    fs: Seq<Food>,
    ps2: Seq<Player>,
    fs2: Seq<Food>,
    effects: Seq<Effect>,
) -> bool {
    match command {
        Command::PlayerCommand(msg) => applied_player(msg, ps, fs, ps2, fs2, effects),
        Command::InternalCommand(cmd) => applied_internal(cmd, ps, fs, ps2, fs2, effects),
    }
}

/// Relies on rand's `Rng::gen_range` on the thread-local generator: a value
/// drawn from the half-open range `low..high`, which must not be empty.
#[verifier::external_body]
fn random_in_range(low: i64, high: i64) -> (r: i64)
    requires
        low < high,
    ensures
        low <= r < high,
{
    rand::thread_rng().gen_range(low..high)
}

/// `c` limited to the world's coordinate range.
fn clamp_coordinate(c: i64) -> (r: i64)
    ensures
        r == clamp_coord(c as int),
{
    if c < -COORD_MAX {
        -COORD_MAX
    } else if c > COORD_MAX {
        COORD_MAX
    } else {
        c
    }
}

/// `amount` food items at random places in the arena, with random radii.
pub fn generate_food(amount: u32) -> (r: Vec<Food>)
    ensures
        r@.len() == amount,
        food_wf(r@),
{
    let mut food: Vec<Food> = Vec::new();
    let mut k: u32 = 0;
    while k < amount
        invariant
            k <= amount,
            food@.len() == k,
            food_wf(food@),
        decreases amount - k,
    {
        let radius = random_in_range(FOOD_MIN_RADIUS as i64, FOOD_MAX_RADIUS as i64);
        let x = random_in_range(radius, ARENA_WIDTH - radius);
        let y = random_in_range(radius, ARENA_HEIGHT - radius);
        let item = Food { position: Vector2D::new(x, y), radius: radius as u32 };
        food.push(item);
        k = k + 1;
    }
    food
}

/// The world: the one owner of the players and the food. Every change goes
/// through a command, applied one at a time.
pub struct GameManager {
    pub food: Vec<Food>,
    pub players: Vec<Player>,
}

impl GameManager {
    pub open spec fn wf(&self) -> bool {
        players_wf(self.players@) && food_wf(self.food@)
    }

    /// A world with no players and a full food population.
    pub fn new() -> (r: GameManager)
        ensures
            r.wf(),
            r.players@.len() == 0,
            r.food@.len() == FOOD_FLOOR,
    {
        let food = generate_food(FOOD_FLOOR as u32);
        GameManager { food, players: Vec::new() }
    }

    /// Adds `player` and greets it with its id.
    pub fn add_player(&mut self, player: Player) -> (effects: Vec<Effect>)
        requires
            old(self).wf(),
            player.wf(),
        ensures
            final(self).wf(),
            final(self).players@ == old(self).players@.push(player),
            final(self).food@ == old(self).food@,
            effects@ == seq![
                Effect::SendToPlayer {
                    id: player.id,
                    message: MessageToClient::JoinSuccess { id: player.id },
                },
            ],
    {
        let id = player.id;
        let mut effects: Vec<Effect> = Vec::new();
        effects.push(Effect::SendToPlayer { id, message: MessageToClient::JoinSuccess { id } });
        self.players.push(player);
        proof {
            assert(forall|i: int|
                0 <= i < old(self).players@.len() ==> self.players@[i] == old(self).players@[i]);
        }
        effects
    }

    /// Drops every player with id `id` and, if there was one, tells that
    /// player it was eaten; a player already gone hears nothing more.
    pub fn remove_player(&mut self, id: u32) -> (effects: Vec<Effect>)
        requires
            old(self).wf(),
        ensures
            final(self).wf(),
            final(self).players@ == without_id(old(self).players@, id),
            final(self).food@ == old(self).food@,
            effects@ == eaten_notice(old(self).players@, id),
    {
        let ghost before = self.players@;
        let mut kept: Vec<Player> = Vec::new();
        let mut found = false;
        let mut i: usize = 0;
        let n = self.players.len();
        while i < n
            invariant
                n == self.players@.len(),
                i <= n,
                self.players@ == before,
                players_wf(before),
                kept@ == without_id(before.take(i as int), id),
                players_wf(kept@),
                found == has_id(before.take(i as int), id),
            decreases n - i,
        {
            proof {
                assert(before.take(i as int + 1) == before.take(i as int).push(before[i as int]));
                before.take(i as int).lemma_filter_push(before[i as int], |p: Player| p.id != id);
            }
            if self.players[i].id != id {
                kept.push(self.players[i].duplicate());
            } else {
                found = true;
            }
            proof {
                let t = before.take(i as int + 1);
                if found {
                    if !has_id(before.take(i as int), id) {
                        assert(t[i as int].id == id);
                    }
                }
                if has_id(t, id) {
                    let k = choose|k: int| 0 <= k < t.len() && t[k].id == id;
                    if k < i {
                        assert(before.take(i as int)[k].id == id);
                    }
                }
            }
            i = i + 1;
        }
        proof {
            assert(before.take(n as int) == before);
        }
        self.players = kept;
        let mut effects: Vec<Effect> = Vec::new();
        if found {
            effects.push(Effect::SendToPlayer { id, message: MessageToClient::PlayerEaten { id } });
        }
        proof {
            assert(effects@ == eaten_notice(before, id));
        }
        effects
    }

    /// Moves the first player with id `id` one step toward `position`,
    /// limited to the world; does nothing when no player has that id.
    pub fn move_player(&mut self, id: u32, position: Vector2D)
        requires
            old(self).wf(),
        ensures
            final(self).wf(),
            final(self).food@ == old(self).food@,
            moved(old(self).players@, final(self).players@, id, position),
    {
        let target = Vector2D::new(clamp_coordinate(position.x), clamp_coordinate(position.y));
        let ghost before = self.players@;
        let n = self.players.len();
        let mut i: usize = 0;
        while i < n
            invariant
                n == before.len(),
                i <= n,
                self.players@ == before,
                before == old(self).players@,
                self.food@ == old(self).food@,
                self.wf(),
                target == clamp_to_world(position),
                target.in_world(),
                forall|j: int| 0 <= j < i ==> before[j].id != id,
            decreases n - i,
        {
            if self.players[i].id == id {
                assert(before[i as int].wf());
                self.players[i].move_towards(target);
                proof {
                    assert(self.players@[i as int] == with_position(
                        before[i as int],
                        self.players@[i as int].position,
                    ));
                    assert(self.players@ == before.update(
                        i as int,
                        with_position(before[i as int], self.players@[i as int].position),
                    ));
                    assert forall|k: int| 0 <= k < self.players@.len() implies (
                    #[trigger] self.players@[k]).wf() by {
                        if k != i {
                            assert(self.players@[k] == before[k]);
                        }
                    }
                    assert(before[i as int].id == id);
                    assert forall|k: int|
                        0 <= k < before.len() && before[k].id == id && (forall|j: int|
                            0 <= j < k ==> before[j].id != id) implies k == i by {
                        if k > i {
                            assert(before[i as int].id == id);
                        }
                    }
                }
                return;
            }
            i = i + 1;
        }
    }

    /// A copy of the players.
    pub fn get_players(&self) -> (r: Vec<Player>)
        ensures
            r@ == self.players@,
    {
        let mut out: Vec<Player> = Vec::new();
        let mut i: usize = 0;
        while i < self.players.len()
            invariant
                i <= self.players@.len(),
                out@ == self.players@.take(i as int),
            decreases self.players@.len() - i,
        {
            out.push(self.players[i].duplicate());
            proof {
                assert(self.players@.take(i as int + 1) == self.players@.take(i as int).push(
                    self.players@[i as int],
                ));
            }
            i = i + 1;
        }
        proof {
            assert(self.players@.take(self.players@.len() as int) == self.players@);
        }
        out
    }

    /// A copy of the food.
    fn get_food(&self) -> (r: Vec<Food>)
        ensures
            r@ == self.food@,
    {
        let mut out: Vec<Food> = Vec::new();
        let mut i: usize = 0;
        while i < self.food.len()
            invariant
                i <= self.food@.len(),
                out@ == self.food@.take(i as int),
            decreases self.food@.len() - i,
        {
            out.push(self.food[i]);
            proof {
                assert(self.food@.take(i as int + 1) == self.food@.take(i as int).push(
                    self.food@[i as int],
                ));
            }
            i = i + 1;
        }
        proof {
            assert(self.food@.take(self.food@.len() as int) == self.food@);
        }
        out
    }

    /// Resolves every ordered pair of players, in order (see [`collide_pair`]).
    pub fn check_collision(&mut self)
        requires
            old(self).wf(),
        ensures
            final(self).wf(),
            final(self).players@ == after_collisions(old(self).players@),
            final(self).food@ == old(self).food@,
    {
        let ghost before = self.players@;
        let n = self.players.len();
        let mut i: usize = 0;
        while i < n
            invariant
                n == before.len(),
                i <= n,
                self.players@.len() == n,
                players_wf(before),
                forall|k: int|
                    0 <= k < n ==> (#[trigger] self.players@[k]).position == before[k].position
                        && self.players@[k].id == before[k].id,
                self.players@ == collisions_upto(before, (i * n) as nat),
                self.food@ == old(self).food@,
                food_wf(self.food@),
            decreases n - i,
        {
            let mut j: usize = 0;
            while j < n
                invariant
                    n == before.len(),
                    i < n,
                    j <= n,
                    self.players@.len() == n,
                    players_wf(before),
                    forall|k: int|
                        0 <= k < n ==> (#[trigger] self.players@[k]).position == before[k].position
                            && self.players@[k].id == before[k].id,
                    self.players@ == collisions_upto(before, (i * n + j) as nat),
                    self.food@ == old(self).food@,
                    food_wf(self.food@),
                decreases n - j,
            {
                proof {
                    lemma_fundamental_div_mod_converse(
                        (i * n + j) as int,
                        n as int,
                        i as int,
                        j as int,
                    );
                    assert(collisions_upto(before, (i * n + j + 1) as nat) == collide_pair(
                        self.players@,
                        i as int,
                        j as int,
                    ));
                    assert(before[i as int].wf() && before[j as int].wf());
                }
                if self.players[i].id != self.players[j].id {
                    let pr = self.players[i].radius;
                    let qr = self.players[j].radius;
                    let distance = self.players[i].position.sub(self.players[j].position).magnitude();
                    proof {
                        assert(self.players@[i as int].position.minus(self.players@[j as int].position)
                            == (offset(self.players@[j as int].position, self.players@[i as int].position).x as int,
                            offset(self.players@[j as int].position, self.players@[i as int].position).y as int));
                    }
                    if distance < pr as u64 + qr as u64 {
                        let r = combined_radius(pr, qr);
                        if pr > qr {
                            self.players[i].radius = r;
                            self.players[j].radius = 0;
                        } else {
                            self.players[j].radius = r;
                            self.players[i].radius = 0;
                        }
                    }
                }
                j = j + 1;
            }
            proof {
                assert((i * n + n) as nat == ((i + 1) * n) as nat) by (nonlinear_arith);
            }
            i = i + 1;
        }
        proof {
            assert(forall|k: int| 0 <= k < n ==> (#[trigger] self.players@[k]).wf() <== before[k].wf());
        }
    }

    /// Lets each player, from the last to the first, eat every food item it
    /// overlaps, checking the food from the last item to the first.
    pub fn check_food_collision(&mut self)
        requires
            old(self).wf(),
        ensures
            final(self).wf(),
            (final(self).players@, final(self).food@) == after_feeding(
                old(self).players@,
                old(self).food@,
            ),
    {
        let ghost goal = after_feeding(self.players@, self.food@);
        let ghost before = self.players@;
        let n = self.players.len();
        let mut i: usize = n;
        while i > 0
            invariant
                n == before.len(),
                i <= n,
                self.players@.len() == n,
                forall|k: int|
                    0 <= k < n ==> (#[trigger] self.players@[k]).position == before[k].position
                        && self.players@[k].id == before[k].id,
                players_wf(before),
                food_wf(self.food@),
                feed_players(self.players@, self.food@, i as int) == goal,
            decreases i,
        {
            let ghost ps = self.players@;
            let ghost fs = self.food@;
            let pos = self.players[i - 1].position;
            let mut r = self.players[i - 1].radius;
            proof {
                assert(before[i - 1].wf());
            }
            let mut j: usize = self.food.len();
            while j > 0
                invariant
                    j <= self.food@.len(),
                    pos.in_world(),
                    food_wf(self.food@),
                    self.players@ == ps,
                    eat_food(pos, r, self.food@, j as int) == eat_food(pos, ps[i - 1].radius, fs, fs.len() as int),
                decreases j,
            {
                let f = self.food[j - 1];
                proof {
                    assert(self.food@[j - 1].wf());
                }
                let distance = pos.sub(f.position).magnitude();
                proof {
                    assert(pos.minus(f.position) == (offset(f.position, pos).x as int, offset(f.position, pos).y as int));
                }
                if distance < r as u64 + f.radius as u64 {
                    r = combined_radius(r, f.radius);
                    let ghost fs0 = self.food@;
                    self.food.remove(j - 1);
                    proof {
                        assert forall|k: int| 0 <= k < self.food@.len() implies (#[trigger] self.food@[k]).wf() by {
                            if k < j - 1 {
                                assert(self.food@[k] == fs0[k]);
                            } else {
                                assert(self.food@[k] == fs0[k + 1]);
                            }
                        }
                    }
                }
                j = j - 1;
            }
            self.players[i - 1].radius = r;
            proof {
                assert(self.players@ == ps.update(i - 1, with_radius(ps[i - 1], r)));
            }
            i = i - 1;
        }
        proof {
            assert(forall|k: int| 0 <= k < n ==> (#[trigger] self.players@[k]).wf() <== before[k].wf());
        }
    }

    /// One removal command for each player that is dead.
    pub fn remove_dead_players(&self) -> (effects: Vec<Effect>)
        ensures
            effects@ == reap_commands(self.players@),
    {
        let mut effects: Vec<Effect> = Vec::new();
        let mut i: usize = 0;
        while i < self.players.len()
            invariant
                i <= self.players@.len(),
                effects@ == reap_commands(self.players@.take(i as int)),
            decreases self.players@.len() - i,
        {
            proof {
                assert(self.players@.take(i as int + 1).drop_last() == self.players@.take(i as int));
            }
            if self.players[i].radius <= DEAD_RADIUS {
                let id = self.players[i].id;
                effects.push(
                    Effect::Enqueue {
                        command: Command::InternalCommand(InternalCommand::RemovePlayer { id }),
                    },
                );
            }
            i = i + 1;
        }
        proof {
            assert(self.players@.take(self.players@.len() as int) == self.players@);
        }
        effects
    }

    /// Tops the food up to the floor with new food, keeping what is there.
    fn check_food(&mut self)
        requires
            old(self).wf(),
        ensures
            final(self).wf(),
            final(self).players@ == old(self).players@,
            final(self).food@.len() == if old(self).food@.len() < FOOD_FLOOR {
                FOOD_FLOOR as nat
            } else {
                old(self).food@.len()
            },
            final(self).food@.take(old(self).food@.len() as int) == old(self).food@,
    {
        if self.food.len() < FOOD_FLOOR {
            let difference = (FOOD_FLOOR - self.food.len()) as u32;
            let mut extra_food = generate_food(difference);
            let ghost extra = extra_food@;
            self.food.append(&mut extra_food);
            proof {
                assert(self.food@.take(old(self).food@.len() as int) == old(self).food@);
                assert forall|k: int| 0 <= k < self.food@.len() implies (#[trigger] self.food@[k]).wf() by {
                    if k >= old(self).food@.len() {
                        assert(self.food@[k] == extra[k - old(self).food@.len()]);
                    }
                }
            }
        } else {
            proof {
                assert(self.food@.take(self.food@.len() as int) == self.food@);
            }
        }
    }

    /// One tick: player collisions, then food collisions, then removal
    /// commands for the dead, then new food up to the floor.
    pub fn update(&mut self) -> (effects: Vec<Effect>)
        requires
            old(self).wf(),
        ensures
            final(self).wf(),
            final(self).players@ == after_feeding(after_collisions(old(self).players@), old(self).food@).0,
            final(self).food@.take(after_feeding(after_collisions(old(self).players@), old(self).food@).1.len() as int)
                == after_feeding(after_collisions(old(self).players@), old(self).food@).1,
            final(self).food@.len() == if after_feeding(after_collisions(old(self).players@), old(self).food@).1.len()
                < FOOD_FLOOR {
                FOOD_FLOOR as nat
            } else {
                after_feeding(after_collisions(old(self).players@), old(self).food@).1.len()
            },
            final(self).food@.len() >= FOOD_FLOOR,
            effects@ == reap_commands(final(self).players@),
    {
        self.check_collision();
        self.check_food_collision();
        let effects = self.remove_dead_players();
        self.check_food();
        effects
    }

    /// The snapshot of the current state, for every subscriber.
    pub fn send_state(&self) -> (e: Effect)
        ensures
            is_snapshot(e, self.players@, self.food@),
    {
        let players = self.get_players();
        let food = self.get_food();
        Effect::Broadcast { message: MessageToClient::State { players, food } }
    }

    /// Applies a command that the game issued to itself; a tick also
    /// broadcasts the new state.
    pub fn execute_internal_command(&mut self, internal_command: InternalCommand) -> (effects: Vec<
        Effect,
    >)
        requires
            old(self).wf(),
        ensures
            final(self).wf(),
            applied_internal(
                internal_command,
                old(self).players@,
                old(self).food@,
                final(self).players@,
                final(self).food@,
                effects@,
            ),
    {
        match internal_command {
            InternalCommand::Update => {
                let mut effects = self.update();
                let ghost reaped = effects@;
                effects.push(self.send_state());
                proof {
                    assert(effects@.take(effects@.len() - 1) == reaped);
                }
                effects
            },
            InternalCommand::AddPlayer { id, name } => self.add_player(Player::new(id, name)),
            InternalCommand::RemovePlayer { id } => self.remove_player(id),
        }
    }

    /// Applies a player's command; a join is handled as `AddPlayer`.
    pub fn execute_player_command(&mut self, player_message: PlayerMessage) -> (effects: Vec<Effect>)
        requires
            old(self).wf(),
        ensures
            final(self).wf(),
            applied_player(
                player_message,
                old(self).players@,
                old(self).food@,
                final(self).players@,
                final(self).food@,
                effects@,
            ),
    {
        let id = player_message.id;
        match player_message.command {
            PlayerCommand::Move { position } => {
                self.move_player(id, position);
                Vec::new()
            },
            PlayerCommand::Join { name } => {
                self.execute_internal_command(InternalCommand::AddPlayer { id, name })
            },
        }
    }

    /// Applies one command taken from the intake.
    pub fn execute_command(&mut self, command: Command) -> (effects: Vec<Effect>)
        requires
            old(self).wf(),
        ensures
            final(self).wf(),
            applied(
                command,
                old(self).players@,
                old(self).food@,
                final(self).players@,
                final(self).food@,
                effects@,
            ),
    {
        match command {
            Command::InternalCommand(internal_command) => {
                self.execute_internal_command(internal_command)
            },
            Command::PlayerCommand(player_command) => self.execute_player_command(player_command),
        }
    }
}

/// Two overlapping players of equal radius: the first of the pair is never
/// strictly greater, so it is absorbed and left with radius zero, while the
/// second takes the merged radius; the pass in the other order changes
/// nothing more.
pub proof fn lemma_equal_radii_collision(a: Player, b: Player)
    requires
        a.id != b.id,
        a.radius == b.radius,
        overlaps(a.position, a.radius as nat, b.position, b.radius as nat),
    ensures
        after_collisions(seq![a, b]) == seq![
            with_radius(a, 0),
            with_radius(b, merged_radius(a.radius as nat, b.radius as nat) as u32),
        ],
{
    let ps = seq![a, b];
    let m = merged_radius(a.radius as nat, b.radius as nat) as u32;
    let s2 = seq![with_radius(a, 0), with_radius(b, m)];
    assert(collisions_upto(ps, 0) == ps);
    assert(collisions_upto(ps, 1) == collide_pair(ps, 0, 0));
    assert(collisions_upto(ps, 1) == ps);
    assert(collisions_upto(ps, 2) == collide_pair(ps, 0, 1));
    assert(collisions_upto(ps, 2) == s2);
    lemma_merge_with_nothing(m as nat);
    assert(collisions_upto(ps, 3) == collide_pair(s2, 1, 0));
    assert(collisions_upto(ps, 3) == s2);
    assert(collisions_upto(ps, 4) == collide_pair(s2, 1, 1));
    assert(collisions_upto(ps, 4) == s2);
    assert(ps.len() * ps.len() == 4);
}

/// After `RemovePlayer { id }` no player with that id is left; the player
/// was told it was eaten exactly once if it was listed, and any later
/// `RemovePlayer { id }` tells it nothing more.
pub proof fn lemma_removed_player_gone(
    ps: Seq<Player>,
    fs: Seq<Food>,
    ps2: Seq<Player>,
    fs2: Seq<Food>,
    effects: Seq<Effect>,
    id: u32,
)
    requires
        applied_internal(InternalCommand::RemovePlayer { id }, ps, fs, ps2, fs2, effects),
    ensures
        forall|k: int| 0 <= k < ps2.len() ==> (#[trigger] ps2[k]).id != id,
        !has_id(ps2, id),
        eaten_notice(ps2, id).len() == 0,
        effects.filter(
            |e: Effect| e == (Effect::SendToPlayer { id, message: MessageToClient::PlayerEaten { id } }),
        ).len() == if has_id(ps, id) {
            1int
        } else {
            0int
        },
{
    broadcast use vstd::seq_lib::group_filter_ensures;

    let pred = |e: Effect| e == (Effect::SendToPlayer { id, message: MessageToClient::PlayerEaten { id } });
    reveal_with_fuel(Seq::filter, 2);
    if has_id(ps2, id) {
        let k = choose|k: int| 0 <= k < ps2.len() && ps2[k].id == id;
        assert(ps2[k].id != id);
    }
    if has_id(ps, id) {
        assert(effects.drop_last().len() == 0);
        assert(effects.drop_last().filter(pred) == effects.drop_last());
    } else {
        assert(effects.len() == 0);
    }
}

/// A tick asks for the removal of every player that it left dead.
pub proof fn lemma_dead_players_reaped(ps: Seq<Player>)
    ensures
        forall|k: int| 0 <= k < ps.len() && is_dead(#[trigger] ps[k]) ==> reap_commands(ps).contains(removal_of(ps[k].id)),
    decreases ps.len(),
{
    if ps.len() > 0 {
        let rest = ps.drop_last();
        lemma_dead_players_reaped(rest);
        assert forall|k: int| 0 <= k < ps.len() && is_dead(#[trigger] ps[k]) implies reap_commands(ps).contains(removal_of(ps[k].id)) by {
            if k < ps.len() - 1 {
                assert(rest[k] == ps[k]);
                let j = choose|j: int| 0 <= j < reap_commands(rest).len() && reap_commands(rest)[j] == removal_of(ps[k].id);
                if is_dead(ps.last()) {
                    assert(reap_commands(ps)[j] == removal_of(ps[k].id));
                }
            } else {
                let r = reap_commands(ps);
                assert(r[r.len() - 1] == removal_of(ps[k].id));
            }
        }
    }
}

} // verus!
