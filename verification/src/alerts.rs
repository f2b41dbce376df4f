//! Score rewards and the transient messages that announce them.

use crate::grid::Vec2;
use vstd::prelude::*;

verus! {

/// For how many frames a message is shown.
pub const ALERT_LIFETIME: u16 = 20;

/// A reward as mathematical values: the score it adds and its message.
pub type Reward = Option<(int, Seq<char>)>;

/// What a candidate holds, as a reward.
pub open spec fn reward_of(candidate: Option<(i64, String)>) -> Reward {
    match candidate {
        Some((score, message)) => Some((score as int, message@)),
        None => None,
    }
}

/// The reward for clearing `lines` rows with one piece.
pub open spec fn line_reward(lines: int) -> Reward {
    if lines == 1 {
        Some((100, "Single!"@))
    } else if lines == 2 {
        Some((300, "Double!"@))
    } else if lines == 3 {
        Some((500, "Triple!"@))
    } else if lines == 4 {
        Some((800, "Tetris!"@))
    } else {
        None
    }
}

/// The reward for clearing `cleared_lines` rows with one piece; none for no
/// row. One piece covers at most four rows.
pub fn generate_alert_for_filled_lines(cleared_lines: i64) -> (alert: Option<(i64, String)>)
    requires
        0 <= cleared_lines <= 4,
    ensures
        reward_of(alert) == line_reward(cleared_lines as int),
{
    if cleared_lines == 1 {
        Some((100, "Single!".to_owned()))
    } else if cleared_lines == 2 {
        Some((300, "Double!".to_owned()))
    } else if cleared_lines == 3 {
        Some((500, "Triple!".to_owned()))
    } else if cleared_lines == 4 {
        Some((800, "Tetris!".to_owned()))
    } else {
        None
    }
}

/// The reward for a `T` turned into a slot, by the rows it clears. It
/// replaces the reward for the rows alone.
pub open spec fn t_spin_reward(lines: int) -> Reward {
    if lines <= 0 {
        Some((400, "T-Spin!"@))
    } else if lines == 1 {
        Some((800, "T-Spin Single!"@))
    } else if lines == 2 {
        Some((1200, "T-Spin Double!"@))
    } else {
        Some((1600, "T-Spin Triple!"@))
    }
}

/// The reward for a `T` turned into a slot that clears `cleared_lines`
/// rows.
pub fn generate_alert_for_t_spin(cleared_lines: i64) -> (alert: Option<(i64, String)>)
    ensures
        reward_of(alert) == t_spin_reward(cleared_lines as int),
{
    if cleared_lines <= 0 {
        Some((400, "T-Spin!".to_owned()))
    } else if cleared_lines == 1 {
        Some((800, "T-Spin Single!".to_owned()))
    } else if cleared_lines == 2 {
        Some((1200, "T-Spin Double!".to_owned()))
    } else {
        Some((1600, "T-Spin Triple!".to_owned()))
    }
}

/// The first candidate that holds a reward, if any does.
pub open spec fn first_reward(candidates: Seq<Option<(i64, String)>>) -> Reward
    decreases candidates.len(),
{
    if candidates.len() == 0 {
        None
    } else if candidates[0] is Some {
        reward_of(candidates[0])
    } else {
        first_reward(candidates.drop_first())
    }
}

/// Of two candidates the first is taken if it holds a reward, whatever the
/// second holds: a special move and a line clear in one lock give the
/// reward of the special move alone.
pub proof fn lemma_first_candidate_wins(special: Option<(i64, String)>, generic: Option<(i64, String)>)
    ensures
        first_reward(seq![special, generic]) == if special is Some {
            reward_of(special)
        } else {
            reward_of(generic)
        },
{
    let both = seq![special, generic];
    assert(both.drop_first() =~= seq![generic]);
    assert(seq![generic].drop_first() =~= Seq::<Option<(i64, String)>>::empty());
    reveal_with_fuel(first_reward, 3);
}

/// The messages on show after `reward` is taken: one more, at full
/// lifetime, if there is a reward.
pub open spec fn with_reward(entries: Seq<(Seq<char>, int)>, reward: Reward) -> Seq<(Seq<char>, int)> {
    match reward {
        Some((_, message)) => entries.push((message, ALERT_LIFETIME as int)),
        None => entries,
    }
}

/// What `reward` adds to the score.
pub open spec fn reward_score(reward: Reward) -> int {
    match reward {
        Some((score, _)) => score,
        None => 0,
    }
}

/// The messages after one frame: each has one frame less to live, and those
/// that had at most one left are gone. The order stays.
pub open spec fn aged(entries: Seq<(Seq<char>, int)>) -> Seq<(Seq<char>, int)>
    decreases entries.len(),
{
    if entries.len() == 0 {
        Seq::empty()
    } else if entries.last().1 > 1 {
        aged(entries.drop_last()).push((entries.last().0, entries.last().1 - 1))
    } else {
        aged(entries.drop_last())
    }
}

/// The messages on show, each with the number of frames it still has, in
/// the order in which they were pushed.
pub struct AlertDisplay {
    pos: Vec2,
    alerts: Vec<(String, u16)>,
}

impl AlertDisplay {
    /// The messages and their remaining lifetimes, oldest first.
    pub closed spec fn entries(self) -> Seq<(Seq<char>, int)> {
        self.alerts@.map_values(|e: (String, u16)| (e.0@, e.1 as int))
    }

    /// Where the first message is drawn.
    pub closed spec fn position(self) -> Vec2 {
        self.pos
    }

    /// Where the first message is drawn.
    pub fn pos(&self) -> (pos: Vec2)
        ensures
            pos == self.position(),
    {
        self.pos
    }

    /// A display at `pos` with no message.
    pub fn new(pos: Vec2) -> (display: Self)
        ensures
            display.position() == pos,
            display.entries() == Seq::<(Seq<char>, int)>::empty(),
    {
        let display = AlertDisplay { pos, alerts: Vec::new() };
        assert(display.entries() =~= Seq::<(Seq<char>, int)>::empty());
        display
    }

    /// Shows `alert` for the full lifetime, after the messages already there.
    pub fn push(&mut self, alert: &str)
        ensures
            final(self).position() == old(self).position(),
            final(self).entries() == old(self).entries().push((alert@, ALERT_LIFETIME as int)),
    {
        self.alerts.push((alert.to_owned(), ALERT_LIFETIME));
        assert(final(self).entries() =~= old(self).entries().push((alert@, ALERT_LIFETIME as int)));
    }

    /// Takes a reward, if there is one: adds its score and shows its message.
    pub fn handle_with_score(&mut self, score: &mut i64, score_and_alert: Option<(i64, String)>)
        requires
            i64::MIN <= *old(score) + reward_score(reward_of(score_and_alert)) <= i64::MAX,
        ensures
            final(self).position() == old(self).position(),
            *final(score) == *old(score) + reward_score(reward_of(score_and_alert)),
            final(self).entries() == with_reward(old(self).entries(), reward_of(score_and_alert)),
    {
        if let Some((add_score, alert)) = score_and_alert {
            *score += add_score;
            self.push(alert.as_str());
        }
    }

    /// Takes the first candidate that holds a reward and passes over all the
    /// others, so that the rewards of one lock never add up.
    pub fn priorised_alerts_with_score(
        &mut self,
        alert_score_pairs: &[Option<(i64, String)>],
        score: &mut i64,
    )
        requires
            i64::MIN <= *old(score) + reward_score(first_reward(alert_score_pairs@)) <= i64::MAX,
        ensures
            final(self).position() == old(self).position(),
            *final(score) == *old(score) + reward_score(first_reward(alert_score_pairs@)),
            final(self).entries() == with_reward(old(self).entries(), first_reward(alert_score_pairs@)),
    {
        let mut i: usize = 0;
        assert(alert_score_pairs@.skip(0) =~= alert_score_pairs@);
        while i < alert_score_pairs.len()
            invariant
                i <= alert_score_pairs@.len(),
                *self == *old(self),
                *score == *old(score),
                i64::MIN <= *old(score) + reward_score(first_reward(alert_score_pairs@)) <= i64::MAX,
                first_reward(alert_score_pairs@) == first_reward(alert_score_pairs@.skip(i as int)),
            decreases alert_score_pairs@.len() - i,
        {
            let ghost rest = alert_score_pairs@.skip(i as int);
            assert(rest[0] == alert_score_pairs@[i as int]);
            assert(rest.drop_first() =~= alert_score_pairs@.skip(i + 1));
            match &alert_score_pairs[i] {
                Some((add_score, alert)) => {
                    *score += *add_score;
                    self.push(alert.as_str());
                    return ;
                },
                None => {},
            }
            i += 1;
        }
    }

    /// Ages every message by one frame and drops those whose time is up.
    pub fn frame(&mut self)
        ensures
            final(self).position() == old(self).position(),
            final(self).entries() == aged(old(self).entries()),
    {
        let mut kept: Vec<(String, u16)> = Vec::new();
        let mut i: usize = 0;
        let ghost before = self.entries();
        while i < self.alerts.len()
            invariant
                i <= self.alerts@.len(),
                *self == *old(self),
                before == self.entries(),
                kept@.map_values(|e: (String, u16)| (e.0@, e.1 as int)) == aged(before.take(i as int)),
            decreases self.alerts@.len() - i,
        {
            let ghost shown = kept@.map_values(|e: (String, u16)| (e.0@, e.1 as int));
            assert(before.take(i + 1).drop_last() =~= before.take(i as int));
            assert(before.take(i + 1).last() == before[i as int]);
            let life = self.alerts[i].1;
            if life > 1 {
                kept.push((self.alerts[i].0.clone(), life - 1));
                assert(kept@.map_values(|e: (String, u16)| (e.0@, e.1 as int)) =~= shown.push(
                    (before[i as int].0, before[i as int].1 - 1),
                ));
            }
            i += 1;
        }
        assert(before.take(i as int) =~= before);
        self.alerts = kept;
    }

    /// The messages on show, oldest first.
    pub fn messages(&self) -> (messages: Vec<String>)
        ensures
            messages@.len() == self.entries().len(),
            forall|i: int| 0 <= i < messages@.len() ==> (#[trigger] messages@[i])@ == self.entries()[i].0,
    {
        let mut messages: Vec<String> = Vec::new();
        let mut i: usize = 0;
        while i < self.alerts.len()
            invariant
                i <= self.alerts@.len(),
                messages@.len() == i,
                forall|j: int| 0 <= j < i ==> (#[trigger] messages@[j])@ == self.entries()[j].0,
            decreases self.alerts@.len() - i,
        {
            messages.push(self.alerts[i].0.clone());
            i += 1;
        }
        messages
    }
}

impl Default for AlertDisplay {
    fn default() -> (display: Self)
        ensures
            display.position() == (Vec2 { x: 0, y: 0 }),
            display.entries() == Seq::<(Seq<char>, int)>::empty(),
    {
        AlertDisplay::new(Vec2::new(0, 0))
    }
}

} // verus!
