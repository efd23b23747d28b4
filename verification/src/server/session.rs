use vstd::prelude::*;

verus! {

/// What the login state decides before it reads the login start: whether the client's
/// protocol differs from the server's (the client is told so, and the login goes on) and
/// whether the server is full (the client is told so, and the login ends).
#[derive(Clone, Copy, Debug, PartialEq, Eq, Structural)]
pub struct LoginCheck {
    pub version_mismatch: bool,
    pub full: bool,
}

/// Checks a client that asks to log in.
pub fn login_check(protocol: i32, server_protocol: i32, players: usize, max_players: u32) -> (r:
    LoginCheck)
    ensures
        r.version_mismatch == (protocol != server_protocol),
        r.full == (players >= max_players),
{
    LoginCheck { version_mismatch: protocol != server_protocol, full: players >= max_players as usize }
}

/// What the client sends or what happens while a connection is being configured.
#[derive(Clone, Copy, Debug, PartialEq, Eq, Structural)]
pub enum ConfigEvent {
    /// The client told which data packs it knows.
    KnownPacks,
    /// The client acknowledged the end of the configuration.
    AcknowledgeFinish,
    /// Another packet.
    Other,
    /// Nothing came in time, or the packet could not be read.
    Failed,
}

/// What the configuration state does next.
#[derive(Clone, Copy, Debug, PartialEq, Eq, Structural)]
pub enum ConfigAction {
    /// Send the registries and tags, then the end of the configuration; keep reading.
    SendRegistries,
    /// Send the login and enter the play state.
    EnterPlay,
    /// Keep reading.
    Wait,
    /// Shut the connection.
    Close,
}

/// Decides the configuration state's next step.
pub fn config_step(event: ConfigEvent) -> (r: ConfigAction)
    ensures
        r == match event {
            ConfigEvent::KnownPacks => ConfigAction::SendRegistries,
            ConfigEvent::AcknowledgeFinish => ConfigAction::EnterPlay,
            ConfigEvent::Other => ConfigAction::Wait,
            ConfigEvent::Failed => ConfigAction::Close,
        },
{
    match event {
        ConfigEvent::KnownPacks => ConfigAction::SendRegistries,
        ConfigEvent::AcknowledgeFinish => ConfigAction::EnterPlay,
        ConfigEvent::Other => ConfigAction::Wait,
        ConfigEvent::Failed => ConfigAction::Close,
    }
}

/// How the server tidies up once a player has left.
#[derive(Clone, Copy, Debug, PartialEq, Eq, Structural)]
pub enum LeavePlan {
    /// The last player left: save everything and drop the loaded regions.
    SaveWorldAndUnload,
    /// Others stay: save this player and tell the others it left.
    SavePlayerAndNotify,
}

/// Decides how to tidy up when a player leaves, from the number of players still listed
/// (the leaving one included).
pub fn leave_plan(players_listed: usize) -> (r: LeavePlan)
    ensures
        r == (if players_listed == 1 {
            LeavePlan::SaveWorldAndUnload
        } else {
            LeavePlan::SavePlayerAndNotify
        }),
{
    if players_listed == 1 {
        LeavePlan::SaveWorldAndUnload
    } else {
        LeavePlan::SavePlayerAndNotify
    }
}

/// The ticks between two saves of the world: five minutes at 20 ticks a second.
pub const AUTOSAVE_INTERVAL: u32 = 6000;

/// The countdown and whether the world is saved, one tick after `ticks_left`.
pub open spec fn autosave_next(ticks_left: u32) -> (u32, bool) {
    if ticks_left == 0 {
        (AUTOSAVE_INTERVAL, true)
    } else {
        ((ticks_left - 1) as u32, false)
    }
}

/// The countdown `k` ticks after it stood at `t`.
pub open spec fn countdown_after(t: u32, k: nat) -> u32
    decreases k,
{
    if k == 0 {
        t
    } else {
        autosave_next(countdown_after(t, (k - 1) as nat)).0
    }
}

proof fn lemma_countdown(k: nat)
    requires
        k <= AUTOSAVE_INTERVAL,
    ensures
        countdown_after(AUTOSAVE_INTERVAL, k) == AUTOSAVE_INTERVAL - k,
    decreases k,
{
    if k > 0 {
        lemma_countdown((k - 1) as nat);
    }
}

/// After a save the world is saved again exactly 6001 ticks later: the countdown stands
/// at 6000 less the ticks gone by, so no tick before the 6001st saves, and that one does.
pub proof fn lemma_autosave_period(k: nat)
    requires
        k <= AUTOSAVE_INTERVAL,
    ensures
        countdown_after(AUTOSAVE_INTERVAL, k) == AUTOSAVE_INTERVAL - k,
        k < AUTOSAVE_INTERVAL ==> !autosave_next(countdown_after(AUTOSAVE_INTERVAL, k)).1,
        autosave_next(countdown_after(AUTOSAVE_INTERVAL, AUTOSAVE_INTERVAL as nat)).1,
{
    lemma_countdown(k);
    lemma_countdown(AUTOSAVE_INTERVAL as nat);
}

/// The autosave countdown the server starts with: the first save comes 100 ticks after
/// the start, about five seconds.
pub const FIRST_AUTOSAVE: u32 = 100;

proof fn lemma_countdown_from(t: u32, k: nat)
    requires
        k <= t,
    ensures
        countdown_after(t, k) == t - k,
    decreases k,
{
    if k > 0 {
        lemma_countdown_from(t, (k - 1) as nat);
    }
}

proof fn lemma_countdown_split(t: u32, a: nat, b: nat)
    ensures
        countdown_after(t, a + b) == countdown_after(countdown_after(t, a), b),
    decreases b,
{
    if b > 0 {
        lemma_countdown_split(t, a, (b - 1) as nat);
        assert((a + b - 1) as nat == a + (b - 1) as nat);
    }
}

proof fn lemma_countdown_cycle(m: nat)
    ensures
        countdown_after(AUTOSAVE_INTERVAL, m) == AUTOSAVE_INTERVAL - m % 6001,
    decreases m,
{
    if m > 0 {
        lemma_countdown_cycle((m - 1) as nat);
        assert(m % 6001 == if (m - 1) as nat % 6001 == 6000 { 0 } else { (m - 1) as nat % 6001 + 1 });
    }
}

/// From the server's start the world is saved on tick `n` (counting from 0) exactly when
/// `n` is 100 more than a multiple of 6001: 100 ticks after the start, then every 6001.
pub proof fn lemma_autosave_schedule(n: nat)
    ensures
        autosave_next(countdown_after(FIRST_AUTOSAVE, n)).1 <==> n % 6001 == 100,
{
    if n <= 100 {
        lemma_countdown_from(FIRST_AUTOSAVE, n);
    } else {
        let m = (n - 101) as nat;
        lemma_countdown_split(FIRST_AUTOSAVE, 101, m);
        lemma_countdown_from(FIRST_AUTOSAVE, 100);
        assert(countdown_after(FIRST_AUTOSAVE, 101) == AUTOSAVE_INTERVAL);
        lemma_countdown_cycle(m);
        assert(n == 101 + m);
        assert((m % 6001 == 6000) <==> (n % 6001 == 100));
    }
}

/// One tick of the autosave countdown: when it has run out the world is saved and it
/// starts again from the full interval; otherwise it counts down by one.
pub fn autosave_step(ticks_left: u32) -> (r: (u32, bool))
    ensures
        r == autosave_next(ticks_left),
{
    if ticks_left == 0 {
        (AUTOSAVE_INTERVAL, true)
    } else {
        (ticks_left - 1, false)
    }
}

/// What the world's save file holds beside the regions and players: the world's clock.
pub struct WorldSave {
    pub timestamp: i64,
}

impl Default for WorldSave {
    /// A new world starts at tick 0.
    fn default() -> (r: Self)
        ensures
            r.timestamp == 0,
    {
        WorldSave { timestamp: 0 }
    }
}

} // verus!
