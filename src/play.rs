//! Entries of the play-by-play log.
use vstd::prelude::*;

verus! {

#[derive(Clone, Copy, Debug, PartialEq, Eq, Structural)]
pub enum PlayType {
    Ast,
    Drb,
    Ft,
    MissFt,
    Injury,
    Orb,
    PfNonShooting,
    PfBonus,
    Sub,
    Tov,
    MadeAtRim,
    MadeMidRange,
    MadeTp,
    MissAtRim,
    MissMidRange,
    MissTp,
}

/// One logged event: its kind, the acting team, and up to two players (the
/// incoming and outgoing one for a substitution; otherwise the actor and the
/// second player involved, or the actor twice).
#[derive(Clone, Copy, Debug, PartialEq, Eq)]
pub struct Play {
    pub play_type: PlayType,
    pub team: u64,
    pub on: u64,
    pub off: u64,
}

impl Play {
    pub fn new(play_type: PlayType, team: u64, on: u64, off: u64) -> (r: Play)
        ensures
            r == (Play { play_type, team, on, off }),
    {
        Play { play_type, team, on, off }
    }
}

/// `new` holds `old` as its beginning: entries are only ever appended.
pub open spec fn extends(old: Seq<Play>, new: Seq<Play>) -> bool {
    &&& old.len() <= new.len()
    &&& forall|i: int| 0 <= i < old.len() ==> #[trigger] new[i] == old[i]
}

/// The log was kept exactly when it was before, and only grew.
pub open spec fn log_extends(old: Option<Vec<Play>>, new: Option<Vec<Play>>) -> bool {
    &&& old.is_some() == new.is_some()
    &&& old.is_some() ==> extends(old.unwrap()@, new.unwrap()@)
}

/// Appending keeps what was logged.
pub proof fn lemma_extends_trans(a: Seq<Play>, b: Seq<Play>, c: Seq<Play>)
    requires
        extends(a, b),
        extends(b, c),
    ensures
        extends(a, c),
{
    assert(c.subrange(0, a.len() as int) =~= b.subrange(0, a.len() as int));
}

/// Nothing appended is still an extension.
pub proof fn lemma_extends_refl(o: Option<Vec<Play>>)
    ensures
        log_extends(o, o),
{
    if o.is_some() {
        assert(o.unwrap()@.subrange(0, o.unwrap()@.len() as int) =~= o.unwrap()@);
    }
}

/// Appends a play where the log is kept.
pub fn log_play(log: &mut Option<Vec<Play>>, play: Play)
    ensures
        old(log).is_some() == final(log).is_some(),
        old(log).is_some() ==> final(log).unwrap()@ == old(log).unwrap()@.push(play),
        log_extends(*old(log), *final(log)),
{
    match log {
        Some(v) => v.push(play),
        None => {},
    }
    proof {
        if old(log).is_some() {
            assert(log.unwrap()@.subrange(0, old(log).unwrap()@.len() as int) =~= old(
                log,
            ).unwrap()@);
        }
    }
}

} // verus!
