//! Team registry for one game: name sanitization, membership and scores.
//!
//! Team identity is name-based: a team's id is its name trimmed of
//! surrounding whitespace and lowercased (ASCII), so `"  Red "` and `"red"`
//! denote the same team. Names are handled as byte strings; the host process
//! decodes and encodes chat text.

use vstd::prelude::*;

use crate::errors::GameError;

verus! {

// ---------------------------------------------------------------------------
// Name sanitization
// ---------------------------------------------------------------------------

/// ASCII whitespace recognised by the trimmer: space, tab, LF, CR.
pub open spec fn is_space(b: u8) -> bool {
    b == 32 || b == 9 || b == 10 || b == 13
}

/// ASCII lowercasing of one byte; other bytes pass through unchanged.
pub open spec fn to_lower(b: u8) -> u8 {
    if 65 <= b && b <= 90 {
        (b + 32) as u8
    } else {
        b
    }
}

/// The sequence with leading whitespace removed.
pub open spec fn trim_front(s: Seq<u8>) -> Seq<u8>
    decreases s.len(),
{
    if s.len() > 0 && is_space(s[0]) {
        trim_front(s.drop_first())
    } else {
        s
    }
}

/// The sequence with trailing whitespace removed.
pub open spec fn trim_back(s: Seq<u8>) -> Seq<u8>
    decreases s.len(),
{
    if s.len() > 0 && is_space(s.last()) {
        trim_back(s.drop_last())
    } else {
        s
    }
}

/// A name's sanitized form: trimmed of surrounding whitespace, lowercased.
pub open spec fn sanitize_spec(s: Seq<u8>) -> Seq<u8> {
    trim_back(trim_front(s)).map_values(|b: u8| to_lower(b))
}

/// A name is acceptable exactly when something is left after trimming.
pub open spec fn sanitize_ok(s: Seq<u8>) -> bool {
    sanitize_spec(s).len() > 0
}

fn byte_is_space(b: u8) -> (r: bool)
    ensures
        r == is_space(b),
{
    b == 32 || b == 9 || b == 10 || b == 13
}

fn byte_to_lower(b: u8) -> (r: u8)
    ensures
        r == to_lower(b),
{
    if 65 <= b && b <= 90 {
        b + 32
    } else {
        b
    }
}

/// Trimming the front of `s` keeps exactly the suffix from its first
/// non-space byte (all of `s` being spaces leaves nothing).
proof fn lemma_trim_front_subrange(s: Seq<u8>, a: int)
    requires
        0 <= a <= s.len(),
        forall|j: int| 0 <= j < a ==> is_space(s[j]),
        a < s.len() ==> !is_space(s[a]),
    ensures
        trim_front(s) == s.subrange(a, s.len() as int),
    decreases a,
{
    if a == 0 {
        assert(s.subrange(0, s.len() as int) =~= s);
    } else {
        let t = s.drop_first();
        assert(forall|j: int| 0 <= j < a - 1 ==> is_space(t[j]));
        lemma_trim_front_subrange(t, a - 1);
        assert(t.subrange(a - 1, t.len() as int) =~= s.subrange(a, s.len() as int));
    }
}

/// Trimming the back of `s` keeps exactly the prefix up to and including its
/// last non-space byte.
proof fn lemma_trim_back_subrange(s: Seq<u8>, b: int)
    requires
        0 <= b <= s.len(),
        forall|j: int| b <= j < s.len() ==> is_space(s[j]),
        b > 0 ==> !is_space(s[b - 1]),
    ensures
        trim_back(s) == s.subrange(0, b),
    decreases s.len() - b,
{
    if b == s.len() {
        assert(s.subrange(0, s.len() as int) =~= s);
    } else {
        let t = s.drop_last();
        assert(forall|j: int| b <= j < t.len() ==> is_space(t[j]));
        lemma_trim_back_subrange(t, b);
        assert(t.subrange(0, b) =~= s.subrange(0, b));
    }
}

/// Sanitizes a team name: trims surrounding ASCII whitespace and lowercases
/// ASCII letters. Fails with `InvalidName` when nothing is left.
pub fn sanitize_name(name: &[u8]) -> (r: Result<Vec<u8>, GameError>)
    ensures
        r is Ok <==> sanitize_ok(name@),
        r matches Ok(v) ==> v@ == sanitize_spec(name@),
        r matches Err(e) ==> e == GameError::InvalidName,
{
    let n = name.len();
    let mut a: usize = 0;
    while a < n && byte_is_space(name[a])
        invariant
            n == name@.len(),
            a <= n,
            forall|j: int| 0 <= j < a ==> is_space(name@[j]),
        decreases n - a,
    {
        a += 1;
    }
    let mut b: usize = n;
    while b > a && byte_is_space(name[b - 1])
        invariant
            n == name@.len(),
            a <= b <= n,
            forall|j: int| b <= j < n ==> is_space(name@[j]),
        decreases b,
    {
        b -= 1;
    }
    proof {
        lemma_trim_front_subrange(name@, a as int);
        if b > a {
            assert(forall|j: int| a <= j < b - 1 + 1 && b <= j ==> is_space(name@[j]));
            lemma_trim_back_subrange(
                name@.subrange(a as int, name@.len() as int),
                b - a,
            );
        } else {
            lemma_trim_back_subrange(
                name@.subrange(a as int, name@.len() as int),
                0,
            );
        }
        assert(trim_back(trim_front(name@)) == name@.subrange(a as int, b as int)) by {
            assert(name@.subrange(a as int, name@.len() as int).subrange(0, b - a) =~= name@
                .subrange(a as int, b as int));
        }
    }
    if b == a {
        assert(sanitize_spec(name@).len() == 0);
        return Err(GameError::InvalidName);
    }
    let mut out: Vec<u8> = Vec::new();
    let mut k: usize = a;
    while k < b
        invariant
            n == name@.len(),
            a <= k <= b <= n,
            out@.len() == k - a,
            forall|j: int| 0 <= j < out@.len() ==> out@[j] == to_lower(name@[a + j]),
        decreases b - k,
    {
        out.push(byte_to_lower(name[k]));
        k += 1;
    }
    proof {
        assert(out@ =~= name@.subrange(a as int, b as int).map_values(|x: u8| to_lower(x)));
    }
    Ok(out)
}

// ---------------------------------------------------------------------------
// Teams and their mathematical model
// ---------------------------------------------------------------------------

/// A team's identity: its sanitized name. Two names denote the same team
/// exactly when they sanitize to the same byte sequence.
pub enum TeamId {
    TeamName(Vec<u8>),
}

impl View for TeamId {
    type V = Seq<u8>;

    open spec fn view(&self) -> Seq<u8> {
        match self {
            TeamId::TeamName(v) => v@,
        }
    }
}

impl TeamId {
    /// The sanitized name this id was built from.
    pub fn name(&self) -> (r: &Vec<u8>)
        ensures
            r@ == self@,
    {
        match self {
            TeamId::TeamName(v) => v,
        }
    }
}

pub(crate) fn clone_bytes(v: &Vec<u8>) -> (r: Vec<u8>)
    ensures
        r@ == v@,
{
    let mut out: Vec<u8> = Vec::new();
    let mut i: usize = 0;
    while i < v.len()
        invariant
            i <= v@.len(),
            out@ == v@.subrange(0, i as int),
        decreases v@.len() - i,
    {
        out.push(v[i]);
        proof {
            assert(out@ =~= v@.subrange(0, i + 1));
        }
        i += 1;
    }
    proof {
        assert(v@.subrange(0, v@.len() as int) =~= v@);
    }
    out
}

fn clone_players(v: &Vec<u64>) -> (r: Vec<u64>)
    ensures
        r@ == v@,
{
    let mut out: Vec<u64> = Vec::new();
    let mut i: usize = 0;
    while i < v.len()
        invariant
            i <= v@.len(),
            out@ == v@.subrange(0, i as int),
        decreases v@.len() - i,
    {
        out.push(v[i]);
        proof {
            assert(out@ =~= v@.subrange(0, i + 1));
        }
        i += 1;
    }
    proof {
        assert(v@.subrange(0, v@.len() as int) =~= v@);
    }
    out
}

impl Clone for TeamId {
    fn clone(&self) -> (r: Self)
        ensures
            r@ == self@,
    {
        match self {
            TeamId::TeamName(v) => TeamId::TeamName(clone_bytes(v)),
        }
    }
}

/// Compares two byte strings for equality.
pub(crate) fn bytes_eq(a: &[u8], b: &[u8]) -> (r: bool)
    ensures
        r <==> a@ == b@,
{
    if a.len() != b.len() {
        return false;
    }
    let mut i: usize = 0;
    while i < a.len()
        invariant
            a@.len() == b@.len(),
            i <= a@.len(),
            forall|j: int| 0 <= j < i ==> a@[j] == b@[j],
        decreases a@.len() - i,
    {
        if a[i] != b[i] {
            return false;
        }
        i += 1;
    }
    proof {
        assert(a@ =~= b@);
    }
    true
}

/// One team: identity, score and the players on it.
pub struct Team {
    pub id: TeamId,
    pub score: i32,
    pub players: Vec<u64>,
}

/// The mathematical value of a team.
pub struct TeamModel {
    pub id: Seq<u8>,
    pub score: int,
    pub players: Seq<u64>,
}

impl View for Team {
    type V = TeamModel;

    open spec fn view(&self) -> TeamModel {
        TeamModel { id: self.id@, score: self.score as int, players: self.players@ }
    }
}

impl Clone for Team {
    fn clone(&self) -> (r: Self)
        ensures
            r@ == self@,
    {
        Team {
            id: self.id.clone(),
            score: self.score,
            players: clone_players(&self.players),
        }
    }
}

/// No player appears twice in the sequence.
pub open spec fn distinct_seq(s: Seq<u64>) -> bool {
    forall|i: int, j: int| 0 <= i < s.len() && 0 <= j < s.len() && i != j ==> s[i] != s[j]
}

/// Well-formedness of a registry's contents: team ids are unique, every team
/// has at least one player, no player is listed twice on a team, and no
/// player is on two teams.
pub open spec fn wf_teams(ts: Seq<TeamModel>) -> bool {
    &&& forall|i: int, j: int|
        #![trigger ts[i].id, ts[j].id]
        0 <= i < ts.len() && 0 <= j < ts.len() && i != j ==> ts[i].id != ts[j].id
    &&& forall|i: int| 0 <= i < ts.len() ==> #[trigger] ts[i].players.len() > 0
    &&& forall|i: int| 0 <= i < ts.len() ==> distinct_seq(#[trigger] ts[i].players)
    &&& forall|i: int, j: int, p: u64|
        #![trigger ts[i].players.contains(p), ts[j].players.contains(p)]
        0 <= i < ts.len() && 0 <= j < ts.len() && i != j ==> !(ts[i].players.contains(p)
            && ts[j].players.contains(p))
}

/// Some team holds player `p`.
pub open spec fn on_some_team(ts: Seq<TeamModel>, p: u64) -> bool {
    exists|i: int| 0 <= i < ts.len() && #[trigger] ts[i].players.contains(p)
}

/// The index of the team holding player `p` (meaningful under `on_some_team`).
pub open spec fn team_index_of_player(ts: Seq<TeamModel>, p: u64) -> int {
    choose|i: int| 0 <= i < ts.len() && #[trigger] ts[i].players.contains(p)
}

/// A team with this id exists.
pub open spec fn has_team(ts: Seq<TeamModel>, id: Seq<u8>) -> bool {
    exists|i: int| 0 <= i < ts.len() && (#[trigger] ts[i]).id == id
}

/// The index of the team with this id (meaningful under `has_team`).
pub open spec fn team_index_of_id(ts: Seq<TeamModel>, id: Seq<u8>) -> int {
    choose|i: int| 0 <= i < ts.len() && (#[trigger] ts[i]).id == id
}

/// The id of the team holding player `p`, if any.
pub open spec fn team_of_player(ts: Seq<TeamModel>, p: u64) -> Option<Seq<u8>> {
    if on_some_team(ts, p) {
        Some(ts[team_index_of_player(ts, p)].id)
    } else {
        None
    }
}

/// Under well-formedness, a team index holding `p` is unique.
pub proof fn lemma_player_index(ts: Seq<TeamModel>, p: u64, i: int)
    requires
        wf_teams(ts),
        0 <= i < ts.len(),
        ts[i].players.contains(p),
    ensures
        on_some_team(ts, p),
        team_index_of_player(ts, p) == i,
{
    assert(on_some_team(ts, p));
    let j = team_index_of_player(ts, p);
    assert(ts[j].players.contains(p));
    if i != j {
        assert(!(ts[i].players.contains(p) && ts[j].players.contains(p)));
    }
}

/// Under well-formedness, a team index with a given id is unique.
pub proof fn lemma_team_index(ts: Seq<TeamModel>, id: Seq<u8>, i: int)
    requires
        wf_teams(ts),
        0 <= i < ts.len(),
        ts[i].id == id,
    ensures
        has_team(ts, id),
        team_index_of_id(ts, id) == i,
{
    assert(has_team(ts, id));
    let j = team_index_of_id(ts, id);
    assert(ts[j].id == id);
    if i != j {
        assert(ts[i].id != ts[j].id);
    }
}

// ---------------------------------------------------------------------------
// Spec-level transitions of the registry
// ---------------------------------------------------------------------------

/// `t` with player `p` taken off (a no-op when `p` is not on it).
pub open spec fn drop_player(t: TeamModel, p: u64) -> TeamModel {
    if t.players.contains(p) {
        TeamModel { players: t.players.remove(t.players.index_of(p)), ..t }
    } else {
        t
    }
}

/// Joining: the player leaves their current team, the target team is found
/// or created, the player is added to it, and a team left empty is pruned.
pub open spec fn join_spec(ts: Seq<TeamModel>, p: u64, id: Seq<u8>) -> Seq<TeamModel> {
    let base = if on_some_team(ts, p) {
        let j = team_index_of_player(ts, p);
        ts.update(j, drop_player(ts[j], p))
    } else {
        ts
    };
    let arr = if has_team(base, id) {
        let i = team_index_of_id(base, id);
        base.update(i, (TeamModel { players: base[i].players.push(p), ..base[i] }))
    } else {
        base.push((TeamModel { id: id, score: 0, players: seq![p] }))
    };
    if on_some_team(ts, p) {
        let j = team_index_of_player(ts, p);
        if arr[j].players.len() == 0 {
            arr.remove(j)
        } else {
            arr
        }
    } else {
        arr
    }
}

/// Leaving: the player is taken off their team; a team left empty is pruned.
pub open spec fn leave_all_spec(ts: Seq<TeamModel>, p: u64) -> Seq<TeamModel> {
    if on_some_team(ts, p) {
        let j = team_index_of_player(ts, p);
        let arr = ts.update(j, drop_player(ts[j], p));
        if arr[j].players.len() == 0 {
            arr.remove(j)
        } else {
            arr
        }
    } else {
        ts
    }
}

/// Disbanding: the team is removed outright, members and all.
pub open spec fn disband_spec(ts: Seq<TeamModel>, id: Seq<u8>) -> Seq<TeamModel> {
    if has_team(ts, id) {
        ts.remove(team_index_of_id(ts, id))
    } else {
        ts
    }
}

/// A score delta clamped to the `i32` range.
pub open spec fn clamp_i32(x: int) -> int {
    if x > i32::MAX {
        i32::MAX as int
    } else if x < i32::MIN {
        i32::MIN as int
    } else {
        x
    }
}

/// Score adjustment: the team's score moves by `delta`, clamped at the
/// numeric limits; nothing else changes.
pub open spec fn adjust_spec(ts: Seq<TeamModel>, id: Seq<u8>, delta: int) -> Seq<TeamModel> {
    if has_team(ts, id) {
        let i = team_index_of_id(ts, id);
        ts.update(i, (TeamModel { score: clamp_i32(ts[i].score + delta), ..ts[i] }))
    } else {
        ts
    }
}

/// Every score set to zero; membership kept.
pub open spec fn reset_scores_spec(ts: Seq<TeamModel>) -> Seq<TeamModel> {
    ts.map_values(|t: TeamModel| TeamModel { score: 0, ..t })
}

/// Taking a player off a duplicate-free roster removes exactly that player.
pub proof fn lemma_drop_player(t: TeamModel, p: u64)
    requires
        distinct_seq(t.players),
        t.players.contains(p),
    ensures
        drop_player(t, p).id == t.id,
        drop_player(t, p).score == t.score,
        drop_player(t, p).players.len() == t.players.len() - 1,
        !drop_player(t, p).players.contains(p),
        forall|q: u64| q != p ==> (drop_player(t, p).players.contains(q) <==> t.players.contains(
            q,
        )),
        distinct_seq(drop_player(t, p).players),
{
    let s = t.players;
    let k = s.index_of(p);
    assert(0 <= k < s.len() && s[k] == p);
    s.remove_ensures(k);
    let d = s.remove(k);
    assert forall|m: int| 0 <= m < d.len() implies d[m] != p by {
        if m < k {
            assert(d[m] == s[m]);
        } else {
            assert(d[m] == s[m + 1]);
        }
    }
    assert(!d.contains(p));
    assert forall|q: u64| q != p implies (d.contains(q) <==> s.contains(q)) by {
        if d.contains(q) {
            let m = choose|m: int| 0 <= m < d.len() && d[m] == q;
            if m < k {
                assert(s[m] == q);
            } else {
                assert(s[m + 1] == q);
            }
            assert(s.contains(q));
        }
        if s.contains(q) {
            let m = choose|m: int| 0 <= m < s.len() && s[m] == q;
            if m < k {
                assert(d[m] == q);
            } else {
                assert(m != k);
                assert(d[m - 1] == s[m]);
            }
            assert(d.contains(q));
        }
    }
    assert forall|m1: int, m2: int|
        0 <= m1 < d.len() && 0 <= m2 < d.len() && m1 != m2 implies d[m1] != d[m2] by {
        let o1: int = if m1 < k {
            m1
        } else {
            m1 + 1
        };
        let o2: int = if m2 < k {
            m2
        } else {
            m2 + 1
        };
        assert(d[m1] == s[o1]);
        assert(d[m2] == s[o2]);
        assert(o1 != o2);
    }
}

/// What joining does to a well-formed registry: the result is well-formed,
/// the target team exists and holds the player, no other team holds the
/// player, no team id appears that was not there before (except the target),
/// and a vacated one-player team is gone.
pub proof fn lemma_join_spec_effect(ts: Seq<TeamModel>, p: u64, id: Seq<u8>)
    requires
        wf_teams(ts),
    ensures
        wf_teams(join_spec(ts, p, id)),
        has_team(join_spec(ts, p, id), id),
        join_spec(ts, p, id)[team_index_of_id(join_spec(ts, p, id), id)].players.contains(p),
        forall|k: int|
            0 <= k < join_spec(ts, p, id).len() && (#[trigger] join_spec(ts, p, id)[k]).id != id
                ==> !join_spec(ts, p, id)[k].players.contains(p),
        team_of_player(join_spec(ts, p, id), p) == Some(id),
        forall|other: Seq<u8>|
            #[trigger] has_team(join_spec(ts, p, id), other) ==> has_team(ts, other) || other
                == id,
        on_some_team(ts, p) ==> ({
            let j = team_index_of_player(ts, p);
            ts[j].players.len() == 1 && ts[j].id != id ==> !has_team(
                join_spec(ts, p, id),
                ts[j].id,
            )
        }),
{
    let r = join_spec(ts, p, id);
    let has_p = on_some_team(ts, p);
    let j = team_index_of_player(ts, p);
    let base = if has_p {
        ts.update(j, drop_player(ts[j], p))
    } else {
        ts
    };
    if has_p {
        assert(0 <= j < ts.len() && ts[j].players.contains(p));
        lemma_drop_player(ts[j], p);
    }
    // No team of `base` holds p, ids and other members are as in `ts`.
    assert forall|k: int| 0 <= k < base.len() implies !(#[trigger] base[k].players).contains(
        p,
    ) by {
        if has_p {
            if k != j {
                assert(!(ts[k].players.contains(p) && ts[j].players.contains(p)));
            }
        } else {
            assert(!on_some_team(ts, p));
        }
    }
    assert(forall|k: int| 0 <= k < base.len() ==> (#[trigger] base[k]).id == ts[k].id);
    let has_t = has_team(base, id);
    let i = if has_t {
        team_index_of_id(base, id)
    } else {
        base.len() as int
    };
    if has_t {
        assert(0 <= i < base.len() && base[i].id == id);
    }
    let arr = if has_t {
        base.update(i, (TeamModel { players: base[i].players.push(p), ..base[i] }))
    } else {
        base.push((TeamModel { id: id, score: 0, players: seq![p] }))
    };
    // In `arr`: the team at `i` has id `id` and holds p; no other team holds p;
    // ids are ts's ids possibly plus `id`.
    assert(0 <= i < arr.len() && arr[i].id == id && arr[i].players.contains(p)) by {
        if has_t {
            let pl = base[i].players.push(p);
            assert(pl[pl.len() - 1] == p);
        } else {
            assert(arr[i].players[0] == p);
        }
    }
    assert(distinct_seq(arr[i].players)) by {
        if has_t {
            assert(forall|m: int| 0 <= m < base[i].players.len() ==> base[i].players[m] != p);
        }
    }
    assert forall|k: int| 0 <= k < arr.len() && k != i implies !(#[trigger] arr[k].players).contains(
        p,
    ) by {
        assert(arr[k] == base[k]);
    }
    if !has_t {
        assert forall|k: int| 0 <= k < arr.len() && k != i implies (#[trigger] arr[k]).id != id by {
            assert(arr[k].id == ts[k].id);
            if ts[k].id == id {
                assert(has_team(base, id));
            }
        }
    }
    // The pruning step.
    let pruned = has_p && arr[j].players.len() == 0;
    if pruned {
        arr.remove_ensures(j);
        assert(j != i);
    }
    assert(r == if pruned {
        arr.remove(j)
    } else {
        arr
    });
    // Index map from r into arr.
    let back = |m: int| if pruned && m >= j { m + 1 } else { m };
    assert forall|m: int| 0 <= m < r.len() implies #[trigger] r[m] == arr[back(m)] && 0 <= back(m)
        < arr.len() && (pruned ==> back(m) != j) by {}
    let ridx = if pruned && i > j {
        i - 1
    } else {
        i
    };
    assert(0 <= ridx < r.len() && r[ridx] == arr[i]);
    // Well-formedness of r.
    assert forall|k1: int, k2: int|
        0 <= k1 < r.len() && 0 <= k2 < r.len() && k1 != k2 implies #[trigger] r[k1].id
        != #[trigger] r[k2].id by {
        let o1 = back(k1);
        let o2 = back(k2);
        assert(r[k1] == arr[o1] && r[k2] == arr[o2] && o1 != o2);
        if o1 < base.len() && o2 < base.len() {
            assert(arr[o1].id == ts[o1].id && arr[o2].id == ts[o2].id);
        }
    }
    assert forall|k: int| 0 <= k < r.len() implies (#[trigger] r[k].players).len() > 0 by {
        let o = back(k);
        if o != i && o < base.len() {
            assert(arr[o].players == base[o].players);
            if has_p && o == j {
                assert(!pruned);
            } else {
                assert(base[o].players == ts[o].players);
            }
        }
    }
    assert forall|k: int| 0 <= k < r.len() implies distinct_seq(#[trigger] r[k].players) by {
        let o = back(k);
        if o != i && o < base.len() {
            if has_p && o == j {
                assert(distinct_seq(base[o].players));
            } else {
                assert(base[o].players == ts[o].players);
            }
        }
    }
    assert forall|k1: int, k2: int, q: u64|
        0 <= k1 < r.len() && 0 <= k2 < r.len() && k1 != k2 implies !(#[trigger] r[k1].players.contains(
        q,
    ) && #[trigger] r[k2].players.contains(q)) by {
        let o1 = back(k1);
        let o2 = back(k2);
        assert(r[k1] == arr[o1] && r[k2] == arr[o2] && o1 != o2);
        if q == p {
            if o1 != i {
                assert(!arr[o1].players.contains(p));
            }
            if o2 != i {
                assert(!arr[o2].players.contains(p));
            }
        } else {
            // For q != p membership in arr matches membership in ts.
            if arr[o1].players.contains(q) && arr[o2].players.contains(q) {
                assert(o1 < ts.len() || o1 == base.len());
                let t1 = if o1 < base.len() {
                    o1
                } else {
                    o1
                };
                if o1 < base.len() && o2 < base.len() {
                    assert(ts[o1].players.contains(q) && ts[o2].players.contains(q));
                } else if o1 < base.len() {
                    // o2 is the new singleton team {p}: q != p cannot be on it
                    assert(arr[o2].players == seq![p]);
                    assert(arr[o2].players[0] == p);
                    let m = choose|m: int|
                        0 <= m < arr[o2].players.len() && arr[o2].players[m] == q;
                    assert(false);
                } else {
                    assert(arr[o1].players == seq![p]);
                    let m = choose|m: int|
                        0 <= m < arr[o1].players.len() && arr[o1].players[m] == q;
                    assert(false);
                }
            }
        }
    }
    assert(wf_teams(r));
    // The target team in r.
    lemma_team_index(r, id, ridx);
    assert(has_team(r, id));
    assert(r[team_index_of_id(r, id)].players.contains(p));
    assert forall|k: int|
        0 <= k < r.len() && (#[trigger] r[k]).id != id implies !r[k].players.contains(p) by {
        if k != ridx {
            assert(r[k] == arr[back(k)] && back(k) != i);
        }
    }
    lemma_player_index(r, p, ridx);
    assert(team_of_player(r, p) == Some(id));
    assert forall|other: Seq<u8>| #[trigger] has_team(r, other) implies has_team(ts, other)
        || other == id by {
        let k = choose|k: int| 0 <= k < r.len() && (#[trigger] r[k]).id == other;
        let o = back(k);
        if o < base.len() {
            assert(ts[o].id == other);
            assert(has_team(ts, other));
        }
    }
    if has_p && ts[j].players.len() == 1 && ts[j].id != id {
        assert(drop_player(ts[j], p).players.len() == 0);
        assert(j != i) by {
            if has_t {
                assert(base[i].id == ts[i].id);
            }
        }
        assert(arr[j].players.len() == 0);
        assert(pruned);
        if has_team(r, ts[j].id) {
            let k = choose|k: int| 0 <= k < r.len() && (#[trigger] r[k]).id == ts[j].id;
            let o = back(k);
            assert(o != j);
            if o < base.len() {
                assert(ts[o].id == ts[j].id);
            }
            assert(false);
        }
    }
}

/// For any player and two different team ids: joining the first then the
/// second leaves the player only on the second team, and if the first team
/// was thereby left with no players it no longer appears in the registry.
pub proof fn lemma_join_then_join(ts: Seq<TeamModel>, p: u64, id1: Seq<u8>, id2: Seq<u8>)
    requires
        wf_teams(ts),
        id1 != id2,
    ensures
        ({
            let s1 = join_spec(ts, p, id1);
            let s2 = join_spec(s1, p, id2);
            &&& team_of_player(s2, p) == Some(id2)
            &&& forall|k: int|
                0 <= k < s2.len() && (#[trigger] s2[k]).id != id2 ==> !s2[k].players.contains(p)
            &&& (s1[team_index_of_id(s1, id1)].players.len() == 1 ==> !has_team(s2, id1))
        }),
{
    lemma_join_spec_effect(ts, p, id1);
    let s1 = join_spec(ts, p, id1);
    lemma_join_spec_effect(s1, p, id2);
    let s2 = join_spec(s1, p, id2);
    let j = team_index_of_player(s1, p);
    assert(s1[j].id == id1);
    lemma_team_index(s1, id1, j);
}

/// Leaving preserves well-formedness and takes the player off every team.
pub proof fn lemma_leave_all_effect(ts: Seq<TeamModel>, p: u64)
    requires
        wf_teams(ts),
    ensures
        wf_teams(leave_all_spec(ts, p)),
        !on_some_team(leave_all_spec(ts, p), p),
        forall|other: Seq<u8>|
            #[trigger] has_team(leave_all_spec(ts, p), other) ==> has_team(ts, other),
{
    let r = leave_all_spec(ts, p);
    if !on_some_team(ts, p) {
        return ;
    }
    let j = team_index_of_player(ts, p);
    assert(0 <= j < ts.len() && ts[j].players.contains(p));
    lemma_drop_player(ts[j], p);
    let arr = ts.update(j, drop_player(ts[j], p));
    let pruned = arr[j].players.len() == 0;
    if pruned {
        arr.remove_ensures(j);
    }
    let back = |m: int| if pruned && m >= j { m + 1 } else { m };
    assert forall|m: int| 0 <= m < r.len() implies #[trigger] r[m] == arr[back(m)] && 0 <= back(m)
        < arr.len() && (pruned ==> back(m) != j) by {}
    assert forall|k: int| 0 <= k < arr.len() implies !(#[trigger] arr[k].players).contains(p) by {
        if k != j {
            assert(!(ts[k].players.contains(p) && ts[j].players.contains(p)));
        }
    }
    assert forall|k1: int, k2: int|
        0 <= k1 < r.len() && 0 <= k2 < r.len() && k1 != k2 implies #[trigger] r[k1].id
        != #[trigger] r[k2].id by {
        assert(r[k1] == arr[back(k1)] && r[k2] == arr[back(k2)]);
        assert(arr[back(k1)].id == ts[back(k1)].id && arr[back(k2)].id == ts[back(k2)].id);
    }
    assert forall|k: int| 0 <= k < r.len() implies (#[trigger] r[k].players).len() > 0
        && distinct_seq(r[k].players) by {
        let o = back(k);
        assert(r[k] == arr[o]);
        if o == j {
            assert(!pruned);
        } else {
            assert(arr[o] == ts[o]);
        }
    }
    assert forall|k1: int, k2: int, q: u64|
        0 <= k1 < r.len() && 0 <= k2 < r.len() && k1 != k2 implies !(#[trigger] r[k1].players.contains(
        q,
    ) && #[trigger] r[k2].players.contains(q)) by {
        let o1 = back(k1);
        let o2 = back(k2);
        assert(r[k1] == arr[o1] && r[k2] == arr[o2] && o1 != o2);
        if arr[o1].players.contains(q) && arr[o2].players.contains(q) {
            assert(ts[o1].players.contains(q) && ts[o2].players.contains(q));
        }
    }
    assert(wf_teams(r));
    if on_some_team(r, p) {
        let k = choose|k: int| 0 <= k < r.len() && (#[trigger] r[k].players).contains(p);
        assert(r[k] == arr[back(k)]);
        assert(false);
    }
    assert forall|other: Seq<u8>| #[trigger] has_team(r, other) implies has_team(ts, other) by {
        let k = choose|k: int| 0 <= k < r.len() && (#[trigger] r[k]).id == other;
        assert(r[k] == arr[back(k)]);
        assert(ts[back(k)].id == other);
    }
}

/// Disbanding an existing team preserves well-formedness, removes the team,
/// and leaves each of its members on no team at all.
pub proof fn lemma_disband_effect(ts: Seq<TeamModel>, id: Seq<u8>)
    requires
        wf_teams(ts),
        has_team(ts, id),
    ensures
        wf_teams(disband_spec(ts, id)),
        !has_team(disband_spec(ts, id), id),
        forall|p: u64|
            ts[team_index_of_id(ts, id)].players.contains(p) ==> !on_some_team(
                disband_spec(ts, id),
                p,
            ),
{
    let i = team_index_of_id(ts, id);
    assert(0 <= i < ts.len() && ts[i].id == id);
    ts.remove_ensures(i);
    let r = ts.remove(i);
    let back = |m: int| if m >= i { m + 1 } else { m };
    assert forall|m: int| 0 <= m < r.len() implies #[trigger] r[m] == ts[back(m)] && 0 <= back(m)
        < ts.len() && back(m) != i by {}
    assert forall|k1: int, k2: int|
        0 <= k1 < r.len() && 0 <= k2 < r.len() && k1 != k2 implies #[trigger] r[k1].id
        != #[trigger] r[k2].id by {
        assert(r[k1] == ts[back(k1)] && r[k2] == ts[back(k2)]);
    }
    assert forall|k: int| 0 <= k < r.len() implies (#[trigger] r[k].players).len() > 0
        && distinct_seq(r[k].players) by {
        assert(r[k] == ts[back(k)]);
    }
    assert forall|k1: int, k2: int, q: u64|
        0 <= k1 < r.len() && 0 <= k2 < r.len() && k1 != k2 implies !(#[trigger] r[k1].players.contains(
        q,
    ) && #[trigger] r[k2].players.contains(q)) by {
        assert(r[k1] == ts[back(k1)] && r[k2] == ts[back(k2)]);
        if r[k1].players.contains(q) && r[k2].players.contains(q) {
            assert(ts[back(k1)].players.contains(q) && ts[back(k2)].players.contains(q));
        }
    }
    assert(wf_teams(r));
    if has_team(r, id) {
        let k = choose|k: int| 0 <= k < r.len() && (#[trigger] r[k]).id == id;
        assert(r[k] == ts[back(k)]);
        assert(false);
    }
    assert forall|p: u64| ts[i].players.contains(p) implies !on_some_team(r, p) by {
        if on_some_team(r, p) {
            let k = choose|k: int| 0 <= k < r.len() && (#[trigger] r[k].players).contains(p);
            assert(r[k] == ts[back(k)]);
            assert(!(ts[back(k)].players.contains(p) && ts[i].players.contains(p)));
            assert(false);
        }
    }
}

/// Adjusting one team's score preserves well-formedness.
pub proof fn lemma_adjust_wf(ts: Seq<TeamModel>, id: Seq<u8>, delta: int)
    requires
        wf_teams(ts),
    ensures
        wf_teams(adjust_spec(ts, id, delta)),
{
    let r = adjust_spec(ts, id, delta);
    assert(r.len() == ts.len());
    assert(forall|k: int|
        0 <= k < r.len() ==> (#[trigger] r[k]).id == ts[k].id && r[k].players == ts[k].players);
    assert forall|k1: int, k2: int, q: u64|
        0 <= k1 < r.len() && 0 <= k2 < r.len() && k1 != k2 implies !(#[trigger] r[k1].players.contains(
        q,
    ) && #[trigger] r[k2].players.contains(q)) by {
        if r[k1].players.contains(q) && r[k2].players.contains(q) {
            assert(ts[k1].players.contains(q) && ts[k2].players.contains(q));
        }
    }
}

/// Resetting scores preserves well-formedness.
pub proof fn lemma_reset_scores_wf(ts: Seq<TeamModel>)
    requires
        wf_teams(ts),
    ensures
        wf_teams(reset_scores_spec(ts)),
{
    let r = reset_scores_spec(ts);
    assert(r.len() == ts.len());
    assert(forall|k: int|
        0 <= k < r.len() ==> (#[trigger] r[k]).id == ts[k].id && r[k].players == ts[k].players);
    assert forall|k1: int, k2: int, q: u64|
        0 <= k1 < r.len() && 0 <= k2 < r.len() && k1 != k2 implies !(#[trigger] r[k1].players.contains(
        q,
    ) && #[trigger] r[k2].players.contains(q)) by {
        if r[k1].players.contains(q) && r[k2].players.contains(q) {
            assert(ts[k1].players.contains(q) && ts[k2].players.contains(q));
        }
    }
}

// ---------------------------------------------------------------------------
// The registry
// ---------------------------------------------------------------------------

fn vec_contains(v: &Vec<u64>, x: u64) -> (r: bool)
    ensures
        r <==> v@.contains(x),
{
    let mut i: usize = 0;
    while i < v.len()
        invariant
            i <= v@.len(),
            forall|k: int| 0 <= k < i ==> v@[k] != x,
        decreases v@.len() - i,
    {
        if v[i] == x {
            return true;
        }
        i += 1;
    }
    false
}

fn remove_u64(v: &mut Vec<u64>, x: u64)
    requires
        distinct_seq(old(v)@),
    ensures
        old(v)@.contains(x) ==> final(v)@ == old(v)@.remove(old(v)@.index_of(x)),
        !old(v)@.contains(x) ==> final(v)@ == old(v)@,
{
    let mut i: usize = 0;
    while i < v.len()
        invariant
            v@ == old(v)@,
            i <= v@.len(),
            forall|k: int| 0 <= k < i ==> v@[k] != x,
            distinct_seq(v@),
        decreases v@.len() - i,
    {
        if v[i] == x {
            proof {
                assert(old(v)@.contains(x));
                let k = old(v)@.index_of(x);
                assert(0 <= k < old(v)@.len() && old(v)@[k] == x);
                assert(k == i as int);
            }
            v.remove(i);
            return ;
        }
        i += 1;
    }
    assert(!old(v)@.contains(x));
}

/// The team registry of one game. All mutation goes through methods that
/// keep `wf_teams` of the contents.
pub struct TeamRegistry {
    teams: Vec<Team>,
}

impl View for TeamRegistry {
    type V = Seq<TeamModel>;

    closed spec fn view(&self) -> Seq<TeamModel> {
        self.teams@.map_values(|t: Team| t@)
    }
}

impl TeamRegistry {
    /// An empty registry.
    pub fn new() -> (r: TeamRegistry)
        ensures
            r@ == Seq::<TeamModel>::empty(),
            wf_teams(r@),
    {
        let r = TeamRegistry { teams: Vec::new() };
        proof {
            assert(r@ =~= Seq::<TeamModel>::empty());
        }
        r
    }

    fn find_player_index(&self, p: u64) -> (r: Option<usize>)
        ensures
            r matches Some(i) ==> i < self@.len() && self@[i as int].players.contains(p),
            r is None ==> !on_some_team(self@, p),
    {
        let mut i: usize = 0;
        while i < self.teams.len()
            invariant
                i <= self@.len(),
                forall|k: int| 0 <= k < i ==> !(#[trigger] self@[k].players).contains(p),
            decreases self@.len() - i,
        {
            if vec_contains(&self.teams[i].players, p) {
                return Some(i);
            }
            i += 1;
        }
        None
    }

    fn find_team_index(&self, id: &[u8]) -> (r: Option<usize>)
        ensures
            r matches Some(i) ==> i < self@.len() && self@[i as int].id == id@,
            r is None ==> !has_team(self@, id@),
    {
        let mut i: usize = 0;
        while i < self.teams.len()
            invariant
                i <= self@.len(),
                forall|k: int| 0 <= k < i ==> (#[trigger] self@[k]).id != id@,
            decreases self@.len() - i,
        {
            if bytes_eq(self.teams[i].id.name().as_slice(), id) {
                return Some(i);
            }
            i += 1;
        }
        None
    }

    /// Puts the player on the team of the given name, creating the team if
    /// absent, after taking the player off whatever team held them; a team
    /// left empty is pruned. Fails only with `InvalidName`, mutating nothing.
    pub fn join(&mut self, player: u64, name: &[u8]) -> (r: Result<(), GameError>)
        requires
            wf_teams(old(self)@),
        ensures
            r is Ok <==> sanitize_ok(name@),
            r matches Err(e) ==> e == GameError::InvalidName && final(self)@ == old(self)@,
            r is Ok ==> final(self)@ == join_spec(old(self)@, player, sanitize_spec(name@)),
            wf_teams(final(self)@),
    {
        let id = match sanitize_name(name) {
            Ok(v) => v,
            Err(e) => {
                return Err(e);
            },
        };
        let ghost ts0 = self@;
        // Take the player off the team currently holding them, if any.
        let pj = self.find_player_index(player);
        match pj {
            Some(j) => {
                proof {
                    lemma_player_index(ts0, player, j as int);
                }
                let mut t = self.teams.remove(j);
                remove_u64(&mut t.players, player);
                self.teams.insert(j, t);
                proof {
                    assert(self@ =~= ts0.update(j as int, drop_player(ts0[j as int], player)));
                }
            },
            None => {},
        }
        let ghost base = self@;
        // Find or create the target team, and add the player.
        let ti = self.find_team_index(id.as_slice());
        match ti {
            Some(i) => {
                proof {
                    // base keeps ts0's ids, so the matching index is unique.
                    assert(forall|k: int|
                        0 <= k < base.len() ==> (#[trigger] base[k]).id == ts0[k].id);
                    assert(has_team(base, id@));
                    let ci = team_index_of_id(base, id@);
                    assert(base[ci].id == id@);
                    if ci != i as int {
                        assert(ts0[ci].id != ts0[i as int].id);
                    }
                }
                let mut t = self.teams.remove(i);
                t.players.push(player);
                self.teams.insert(i, t);
                proof {
                    assert(self@ =~= base.update(
                        i as int,
                        (TeamModel { players: base[i as int].players.push(player), ..base[
                            i as int
                        ] }),
                    ));
                }
            },
            None => {
                let ghost idv = id@;
                let mut pv: Vec<u64> = Vec::new();
                pv.push(player);
                proof {
                    assert(pv@ =~= seq![player]);
                }
                self.teams.push(Team { id: TeamId::TeamName(id), score: 0, players: pv });
                proof {
                    assert(self@ =~= base.push(
                        (TeamModel { id: idv, score: 0, players: seq![player] }),
                    ));
                }
            },
        }
        // Prune the vacated team if it was left empty.
        match pj {
            Some(j) => {
                if self.teams[j].players.len() == 0 {
                    self.teams.remove(j);
                }
            },
            None => {},
        }
        proof {
            assert(final(self)@ =~= join_spec(ts0, player, sanitize_spec(name@)));
            lemma_join_spec_effect(ts0, player, sanitize_spec(name@));
        }
        Ok(())
    }

    /// Takes the player off whatever team holds them; a no-op when none does.
    /// A team left empty is pruned.
    pub fn leave_all(&mut self, player: u64)
        requires
            wf_teams(old(self)@),
        ensures
            final(self)@ == leave_all_spec(old(self)@, player),
            wf_teams(final(self)@),
            !on_some_team(final(self)@, player),
    {
        let ghost ts0 = self@;
        let pj = self.find_player_index(player);
        match pj {
            Some(j) => {
                proof {
                    lemma_player_index(ts0, player, j as int);
                }
                let mut t = self.teams.remove(j);
                remove_u64(&mut t.players, player);
                let empty = t.players.len() == 0;
                if !empty {
                    self.teams.insert(j, t);
                }
                proof {
                    let arr = ts0.update(j as int, drop_player(ts0[j as int], player));
                    if empty {
                        assert(self@ =~= arr.remove(j as int)) by {
                            assert(ts0.remove(j as int) =~= arr.remove(j as int));
                        }
                    } else {
                        assert(self@ =~= arr);
                    }
                }
            },
            None => {},
        }
        proof {
            lemma_leave_all_effect(ts0, player);
        }
    }

    /// Removes the named team outright, members and all. Fails with
    /// `InvalidName` on an unsanitizable name and `NotFound` when no team
    /// matches; a failure mutates nothing. On success every former member of
    /// the team is left without a team.
    pub fn disband(&mut self, name: &[u8]) -> (r: Result<(), GameError>)
        requires
            wf_teams(old(self)@),
        ensures
            r is Ok <==> sanitize_ok(name@) && has_team(old(self)@, sanitize_spec(name@)),
            r is Ok ==> final(self)@ == disband_spec(old(self)@, sanitize_spec(name@))
                && !has_team(final(self)@, sanitize_spec(name@)),
            r is Ok ==> forall|p: u64|
                old(self)@[team_index_of_id(old(self)@, sanitize_spec(name@))].players.contains(p)
                    ==> !on_some_team(final(self)@, p),
            r matches Err(e) ==> final(self)@ == old(self)@ && ((e == GameError::InvalidName
                && !sanitize_ok(name@)) || (e == GameError::NotFound && sanitize_ok(name@)
                && !has_team(old(self)@, sanitize_spec(name@)))),
            wf_teams(final(self)@),
    {
        let id = match sanitize_name(name) {
            Ok(v) => v,
            Err(e) => {
                return Err(e);
            },
        };
        let ti = self.find_team_index(id.as_slice());
        match ti {
            Some(i) => {
                proof {
                    lemma_team_index(old(self)@, id@, i as int);
                }
                self.teams.remove(i);
                proof {
                    assert(self@ =~= old(self)@.remove(i as int));
                    lemma_disband_effect(old(self)@, id@);
                }
                Ok(())
            },
            None => Err(GameError::NotFound),
        }
    }

    /// Adds `delta` to the named team's score, clamped at the numeric
    /// limits, and reports the resulting score. Fails with `NotFound`
    /// when the team does not exist, mutating nothing.
    pub fn adjust_score(&mut self, team_id: &TeamId, delta: i32) -> (r: Result<i32, GameError>)
        requires
            wf_teams(old(self)@),
        ensures
            r is Ok <==> has_team(old(self)@, team_id@),
            final(self)@ == adjust_spec(old(self)@, team_id@, delta as int),
            r matches Ok(s) ==> s as int == clamp_i32(
                old(self)@[team_index_of_id(old(self)@, team_id@)].score + delta,
            ),
            r matches Err(e) ==> e == GameError::NotFound && final(self)@ == old(self)@,
            wf_teams(final(self)@),
    {
        let ti = self.find_team_index(team_id.name().as_slice());
        match ti {
            Some(i) => {
                proof {
                    lemma_team_index(old(self)@, team_id@, i as int);
                }
                let mut t = self.teams.remove(i);
                let new_score = match t.score.checked_add(delta) {
                    Some(s) => s,
                    None => {
                        if delta > 0 {
                            i32::MAX
                        } else {
                            i32::MIN
                        }
                    },
                };
                t.score = new_score;
                self.teams.insert(i, t);
                proof {
                    assert(self@ =~= adjust_spec(old(self)@, team_id@, delta as int));
                    lemma_adjust_wf(old(self)@, team_id@, delta as int);
                }
                Ok(new_score)
            },
            None => Err(GameError::NotFound),
        }
    }

    /// Clears every team and all membership.
    pub fn reset_all(&mut self)
        ensures
            final(self)@ == Seq::<TeamModel>::empty(),
            wf_teams(final(self)@),
    {
        self.teams.clear();
        proof {
            assert(self@ =~= Seq::<TeamModel>::empty());
        }
    }

    /// Sets every team's score to zero, preserving membership.
    pub fn reset_scores(&mut self)
        requires
            wf_teams(old(self)@),
        ensures
            final(self)@ == reset_scores_spec(old(self)@),
            wf_teams(final(self)@),
    {
        let mut i: usize = 0;
        while i < self.teams.len()
            invariant
                self@.len() == old(self)@.len(),
                i <= self@.len(),
                forall|k: int|
                    0 <= k < i ==> self@[k] == (TeamModel { score: 0, ..old(self)@[k] }),
                forall|k: int| i <= k < self@.len() ==> self@[k] == old(self)@[k],
            decreases self@.len() - i,
        {
            let ghost pre = self@;
            let mut t = self.teams.remove(i);
            t.score = 0;
            self.teams.insert(i, t);
            proof {
                assert(self@ =~= pre.update(
                    i as int,
                    (TeamModel { score: 0, ..pre[i as int] }),
                ));
            }
            i += 1;
        }
        proof {
            assert(self@ =~= reset_scores_spec(old(self)@));
            lemma_reset_scores_wf(old(self)@);
        }
    }

    /// The id of the team holding the player, if any; no mutation.
    pub fn find_team_of(&self, player: u64) -> (r: Option<TeamId>)
        requires
            wf_teams(self@),
        ensures
            r matches Some(t) ==> team_of_player(self@, player) == Some(t@),
            r is None <==> team_of_player(self@, player) is None,
    {
        match self.find_player_index(player) {
            Some(i) => {
                proof {
                    lemma_player_index(self@, player, i as int);
                }
                Some(self.teams[i].id.clone())
            },
            None => None,
        }
    }

    /// A snapshot of every team, for display.
    pub fn get_all(&self) -> (r: Vec<Team>)
        ensures
            r@.map_values(|t: Team| t@) == self@,
    {
        let mut out: Vec<Team> = Vec::new();
        let mut i: usize = 0;
        while i < self.teams.len()
            invariant
                i <= self@.len(),
                out@.len() == i,
                forall|k: int| 0 <= k < i ==> (#[trigger] out@[k])@ == self@[k],
            decreases self@.len() - i,
        {
            out.push(self.teams[i].clone());
            i += 1;
        }
        proof {
            assert(out@.map_values(|t: Team| t@) =~= self@);
        }
        out
    }
}

} // verus!
