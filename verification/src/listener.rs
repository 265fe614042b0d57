//! The listener's record of players: who is registered (with an optional
//! enrollment token and a running score), whose daemon is connected, and
//! which AUTH requests it admits.
use vstd::prelude::*;
use vstd::string::StringSliceAdditionalSpecFns;
use vstd::utf8::encode_utf8;
use std::collections::{HashMap, HashSet};
use crate::policy::{findings_view, FindingView, ScoreState};
use crate::entropy::random_nonce;
use crate::protocol::{
    auth_accepted, auth_token, build_scan_cmd, constant_time_eq, le_u64_at, parse_auth, spec_scan_cmd,
    AuthRequest, NONCE_LEN,
};
use crate::tokens::{generate, is_token_text, string_map_view, TokenDbConfig};

verus! {

broadcast use vstd::std_specs::hash::group_hash_axioms;

/// A player registered by the host.
pub struct RegisteredPlayer {
    pub name: String,
    /// When set, the player's daemon must present this token in AUTH.
    pub token: Option<String>,
    pub state: ScoreState,
}

/// The abstract view of a registered player.
pub struct PlayerView {
    pub name: Seq<char>,
    pub token: Option<Seq<char>>,
    pub total: u32,
    pub findings: Seq<FindingView>,
    pub clean_scan_count: u32,
}

/// The view of an optional text.
pub open spec fn token_view(t: Option<String>) -> Option<Seq<char>> {
    match t {
        Some(s) => Some(s@),
        Option::None => Option::None,
    }
}

/// The view of a player.
pub open spec fn player_view(p: RegisteredPlayer) -> PlayerView {
    PlayerView {
        name: p.name@,
        token: token_view(p.token),
        total: p.state.total,
        findings: findings_view(p.state.findings@),
        clean_scan_count: p.state.clean_scan_count,
    }
}

/// Registered players and connected daemons.
pub struct ListenerRegistry {
    pub registered: HashMap<u64, RegisteredPlayer>,
    pub connected: HashSet<u64>,
}

/// The registered players by steam id.
pub open spec fn registry_view(reg: ListenerRegistry) -> Map<u64, PlayerView> {
    Map::new(
        |k: u64| reg.registered@.contains_key(k),
        |k: u64| player_view(reg.registered@[k]),
    )
}

/// A freshly (re-)registered player.
pub open spec fn fresh_player(name: Seq<char>, token: Option<Seq<char>>) -> PlayerView {
    PlayerView { name, token, total: 0, findings: Seq::empty(), clean_scan_count: 0 }
}

/// Registration: the name is refreshed and the score cleared; a token given
/// replaces the old one, and without one the enrolled token is kept.
pub open spec fn spec_register(
    m: Map<u64, PlayerView>,
    steam_id: u64,
    name: Seq<char>,
    token: Option<Seq<char>>,
) -> Map<u64, PlayerView> {
    let kept = match token {
        Some(t) => Some(t),
        Option::None => if m.contains_key(steam_id) {
            m[steam_id].token
        } else {
            Option::None
        },
    };
    m.insert(steam_id, fresh_player(name, kept))
}

/// The enrolled token of a player, if registered and enrolled.
pub open spec fn spec_client_token(m: Map<u64, PlayerView>, steam_id: u64) -> Option<Seq<char>> {
    if m.contains_key(steam_id) {
        m[steam_id].token
    } else {
        Option::None
    }
}

/// Enrolls a registered player with `token`.
pub open spec fn spec_enroll(m: Map<u64, PlayerView>, steam_id: u64, token: Seq<char>) -> Map<
    u64,
    PlayerView,
> {
    if m.contains_key(steam_id) {
        m.insert(steam_id, PlayerView { token: Some(token), ..m[steam_id] })
    } else {
        m
    }
}

impl ListenerRegistry {
    /// No players, no connections.
    pub fn new() -> (r: Self)
        ensures
            registry_view(r) == Map::<u64, PlayerView>::empty(),
            r.connected@ == Set::<u64>::empty(),
    {
        let r = ListenerRegistry { registered: HashMap::new(), connected: HashSet::new() };
        proof {
            assert(registry_view(r) =~= Map::<u64, PlayerView>::empty());
        }
        r
    }
}

fn copy_token(t: &Option<String>) -> (r: Option<String>)
    ensures
        token_view(r) == token_view(*t),
{
    match t {
        Some(s) => Some(s.clone()),
        Option::None => Option::None,
    }
}

/// Registers a player for daemon authentication (or refreshes a
/// re-registration, keeping an enrolled token unless a new one is given).
pub fn register_client(reg: &mut ListenerRegistry, steam_id: u64, player_name: &str, token: Option<String>)
    ensures
        registry_view(*final(reg)) == spec_register(
            registry_view(*old(reg)),
            steam_id,
            player_name@,
            token_view(token),
        ),
        final(reg).connected@ == old(reg).connected@,
{
    let ghost m0 = registry_view(*reg);
    let previous = reg.registered.remove(&steam_id);
    let kept = match token {
        Some(t) => Some(t),
        Option::None => match previous {
            Some(p) => p.token,
            Option::None => Option::None,
        },
    };
    let state = ScoreState::new();
    proof {
        assert(findings_view(state.findings@) =~= Seq::<FindingView>::empty());
    }
    let player = RegisteredPlayer { name: String::from_str(player_name), token: kept, state };
    reg.registered.insert(steam_id, player);
    proof {
        assert(registry_view(*reg) =~= spec_register(m0, steam_id, player_name@, token_view(token)));
    }
}

/// The token of a registered player, if enrolled.
pub fn client_token(reg: &ListenerRegistry, steam_id: u64) -> (r: Option<String>)
    ensures
        token_view(r) == spec_client_token(registry_view(*reg), steam_id),
{
    match reg.registered.get(&steam_id) {
        Some(p) => copy_token(&p.token),
        Option::None => Option::None,
    }
}

/// Forgets a player.
pub fn unregister_client(reg: &mut ListenerRegistry, steam_id: u64)
    ensures
        registry_view(*final(reg)) == registry_view(*old(reg)).remove(steam_id),
        final(reg).connected@ == old(reg).connected@,
{
    let ghost m0 = registry_view(*reg);
    reg.registered.remove(&steam_id);
    proof {
        assert(registry_view(*reg) =~= m0.remove(steam_id));
    }
}

/// Whether a daemon is connected for the player.
pub fn is_connected(reg: &ListenerRegistry, steam_id: u64) -> (r: bool)
    ensures
        r == reg.connected@.contains(steam_id),
{
    reg.connected.contains(&steam_id)
}

/// Records that the player's daemon is connected.
pub fn mark_connected(reg: &mut ListenerRegistry, steam_id: u64)
    ensures
        final(reg).connected@ == old(reg).connected@.insert(steam_id),
        registry_view(*final(reg)) == registry_view(*old(reg)),
{
    reg.connected.insert(steam_id);
}

/// Records that the player's daemon went away.
pub fn mark_disconnected(reg: &mut ListenerRegistry, steam_id: u64)
    ensures
        final(reg).connected@ == old(reg).connected@.remove(steam_id),
        registry_view(*final(reg)) == registry_view(*old(reg)),
{
    reg.connected.remove(&steam_id);
}

/// The outcome of `ensure_client_token` for a registered player.
pub struct EnsuredToken {
    pub token: String,
    /// The token was just generated and must be written to the store.
    pub minted: bool,
}

/// Returns the player's enrollment token, enrolling the player first when
/// needed: with the token the store holds for it, or else with a freshly
/// generated one (which the caller must persist).  Unregistered players get
/// nothing.
pub fn ensure_client_token(reg: &mut ListenerRegistry, steam_id: u64, stored: &HashMap<u64, String>) -> (r:
    Option<EnsuredToken>)
    ensures
        final(reg).connected@ == old(reg).connected@,
        ({
            let m = registry_view(*old(reg));
            let disk = string_map_view(stored@);
            if !m.contains_key(steam_id) {
                r is None && registry_view(*final(reg)) == m
            } else if m[steam_id].token is Some {
                r matches Some(e) && Some(e.token@) == m[steam_id].token && !e.minted
                    && registry_view(*final(reg)) == m
            } else if disk.contains_key(steam_id) {
                r matches Some(e) && e.token@ == disk[steam_id] && !e.minted && registry_view(
                    *final(reg),
                ) == spec_enroll(m, steam_id, e.token@)
            } else {
                r matches Some(e) && e.minted && is_token_text(e.token@) && registry_view(
                    *final(reg),
                ) == spec_enroll(m, steam_id, e.token@)
            }
        }),
{
    let ghost m0 = registry_view(*reg);
    match reg.registered.get(&steam_id) {
        Option::None => {
            return Option::None;
        },
        Some(p) => match &p.token {
            Some(t) => {
                return Some(EnsuredToken { token: t.clone(), minted: false });
            },
            Option::None => {},
        },
    }
    let (tok, minted) = match stored.get(&steam_id) {
        Some(t) => (t.clone(), false),
        Option::None => (generate(), true),
    };
    let player = reg.registered.remove(&steam_id);
    match player {
        Some(p) => {
            reg.registered.insert(
                steam_id,
                RegisteredPlayer { name: p.name, token: Some(tok.clone()), state: p.state },
            );
        },
        Option::None => {},
    }
    proof {
        assert(registry_view(*reg) =~= spec_enroll(m0, steam_id, tok@));
    }
    Some(EnsuredToken { token: tok, minted })
}

// ---------------------------------------------------------------------------
// Sessions
// ---------------------------------------------------------------------------

/// An authenticated daemon connection: the player it speaks for and the
/// score carried through its scan rounds.
pub struct Session {
    pub steam_id: u64,
    pub name: String,
    pub token: Option<String>,
    pub state: ScoreState,
}

/// A registered player's token, when set, must be the one presented.
pub open spec fn token_admits(expected: Option<Seq<char>>, body: Seq<u8>) -> bool {
    match expected {
        Some(t) => auth_token(body) == Some(t),
        Option::None => true,
    }
}

/// The listener admits an AUTH body: well formed, from a registered player,
/// with the player's token when one is enrolled.
pub open spec fn admits(m: Map<u64, PlayerView>, body: Seq<u8>) -> bool {
    let id = le_u64_at(body, 1);
    &&& auth_accepted(body)
    &&& m.contains_key(id)
    &&& token_admits(m[id].token, body)
}

/// Decides an AUTH frame body: a session for an admitted request, carrying
/// the player's name, token and score, or nothing.
pub fn authorize(reg: &ListenerRegistry, body: &[u8]) -> (r: Option<Session>)
    ensures
        r is Some <==> admits(registry_view(*reg), body@),
        r matches Some(s) ==> {
            let p = registry_view(*reg)[s.steam_id];
            &&& s.steam_id == le_u64_at(body@, 1)
            &&& s.name@ == p.name
            &&& token_view(s.token) == p.token
            &&& s.state.total == p.total
            &&& findings_view(s.state.findings@) == p.findings
            &&& s.state.clean_scan_count == p.clean_scan_count
        },
{
    let (steam_id, presented) = match parse_auth(body) {
        AuthRequest::Rejected => {
            return Option::None;
        },
        AuthRequest::Auth { steam_id, token } => (steam_id, token),
    };
    let p = match reg.registered.get(&steam_id) {
        Some(p) => p,
        Option::None => {
            return Option::None;
        },
    };
    match &p.token {
        Some(expected) => {
            let ok = match &presented {
                Some(t) => constant_time_eq(t.as_str().as_bytes(), expected.as_str().as_bytes()),
                Option::None => false,
            };
            proof {
                if presented is Some {
                    let t = presented->0;
                    vstd::utf8::encode_utf8_decode_utf8(t@);
                    vstd::utf8::encode_utf8_decode_utf8(expected@);
                }
            }
            if !ok {
                return Option::None;
            }
        },
        Option::None => {},
    }
    Some(
        Session {
            steam_id,
            name: p.name.clone(),
            token: copy_token(&p.token),
            state: p.state.duplicate(),
        },
    )
}

/// Stores the session's player back after a round, as the session knows it.
pub fn store_session(reg: &mut ListenerRegistry, session: &Session)
    ensures
        registry_view(*final(reg)) == registry_view(*old(reg)).insert(
            session.steam_id,
            PlayerView {
                name: session.name@,
                token: token_view(session.token),
                total: session.state.total,
                findings: findings_view(session.state.findings@),
                clean_scan_count: session.state.clean_scan_count,
            },
        ),
        final(reg).connected@ == old(reg).connected@,
{
    let ghost m0 = registry_view(*reg);
    reg.registered.insert(
        session.steam_id,
        RegisteredPlayer {
            name: session.name.clone(),
            token: copy_token(&session.token),
            state: session.state.duplicate(),
        },
    );
    proof {
        assert(registry_view(*reg) =~= m0.insert(
            session.steam_id,
            PlayerView {
                name: session.name@,
                token: token_view(session.token),
                total: session.state.total,
                findings: findings_view(session.state.findings@),
                clean_scan_count: session.state.clean_scan_count,
            },
        ));
    }
}

// ---------------------------------------------------------------------------
// Laws
// ---------------------------------------------------------------------------

/// Law: a player who relogs (re-registers without a token) keeps the
/// enrollment token, so an installed daemon keeps authenticating.
pub proof fn lemma_relog_keeps_token(m: Map<u64, PlayerView>, steam_id: u64, name: Seq<char>)
    ensures
        spec_client_token(spec_register(m, steam_id, name, Option::None), steam_id)
            == spec_client_token(m, steam_id),
{
}

/// Law: an unregistered player has no token.
pub proof fn lemma_unregistered_has_no_token(m: Map<u64, PlayerView>, steam_id: u64)
    ensures
        spec_client_token(m.remove(steam_id), steam_id) is None,
{
}

/// Law: once a registered player is enrolled, its token is the one the
/// listener hands out, and a relog keeps it.
pub proof fn lemma_enrolled_token_stable(
    m: Map<u64, PlayerView>,
    steam_id: u64,
    token: Seq<char>,
    name: Seq<char>,
)
    requires
        m.contains_key(steam_id),
    ensures
        spec_client_token(spec_enroll(m, steam_id, token), steam_id) == Some(token),
        spec_client_token(spec_register(spec_enroll(m, steam_id, token), steam_id, name, Option::None), steam_id)
            == Some(token),
{
}

/// Law: a registered player with an enrolled token is admitted only when the
/// request presents exactly that token.
pub proof fn lemma_token_required(m: Map<u64, PlayerView>, body: Seq<u8>)
    requires
        auth_accepted(body),
        m.contains_key(le_u64_at(body, 1)),
        m[le_u64_at(body, 1)].token is Some,
    ensures
        admits(m, body) <==> auth_token(body) == m[le_u64_at(body, 1)].token,
{
}


/// Sets the token store's path.
pub fn tokens_set_db_path(cfg: &mut TokenDbConfig, path: &str)
    ensures
        final(cfg).explicit matches Some(p) && p@ == path@,
{
    crate::tokens::set_db_path(cfg, path);
}


/// A fresh challenge for one module: a random 8-byte nonce and the SCAN_CMD
/// payload carrying the module id, the sealing public key and that nonce.
pub fn scan_challenge(module_id: u32, kyber_pk: &[u8]) -> (r: ([u8; 8], Vec<u8>))
    ensures
        r.1@ == spec_scan_cmd(module_id, kyber_pk@, r.0@),
        r.0@.len() == NONCE_LEN,
{
    let nonce = random_nonce();
    let cmd = build_scan_cmd(module_id, kyber_pk, nonce.as_slice());
    (nonce, cmd)
}

} // verus!
