//! The player's progress: jumps left, and the stack of levels entered.
use vstd::prelude::*;
use vstd::string::*;

verus! {

/// Jumps the player has after landing, and at the start of a level.
pub const FULL_JUMPS: usize = 2;

/// The word that level names start with.
pub open spec fn level_word() -> Seq<char> {
    seq!['l', 'e', 'v', 'e', 'l']
}

/// `s` without every leading repetition of the level word.
pub open spec fn strip_level_word(s: Seq<char>) -> Seq<char>
    decreases s.len(),
{
    if s.len() >= 5 && s.take(5) == level_word() {
        strip_level_word(s.skip(5))
    } else {
        s
    }
}

/// The value of a decimal digit.
pub open spec fn digit_value(c: char) -> Option<u32> {
    if '0' <= c && c <= '9' {
        Some((c as u32 - '0' as u32) as u32)
    } else {
        None
    }
}

/// The index a level name stands for: the digit right after its leading
/// level words.
pub open spec fn level_index_of(name: Seq<char>) -> Option<u32> {
    let rest = strip_level_word(name);
    if rest.len() > 0 {
        digit_value(rest[0])
    } else {
        None
    }
}

/// Parses the index of a level from its name (`"level5.ron"` is level 5);
/// `None` where no digit follows the leading level words.
pub fn level_index(name: &str) -> (r: Option<u32>)
    ensures
        r == level_index_of(name@),
{
    let len = name.unicode_len();
    let mut start: usize = 0;
    assert(name@.skip(0) =~= name@);
    loop
        invariant
            len == name@.len(),
            start <= len,
            strip_level_word(name@.skip(start as int)) == strip_level_word(name@),
        decreases len - start,
    {
        let mut is_word = len - start >= 5;
        if is_word {
            is_word = name.get_char(start) == 'l' && name.get_char(start + 1) == 'e'
                && name.get_char(start + 2) == 'v' && name.get_char(start + 3) == 'e'
                && name.get_char(start + 4) == 'l';
        }
        let ghost s = name@.skip(start as int);
        if is_word {
            assert(s.take(5) =~= level_word());
            assert(s.skip(5) =~= name@.skip(start + 5));
            start = start + 5;
        } else {
            assert(s.len() < 5 || s.take(5) != level_word()) by {
                if s.len() >= 5 && s.take(5) == level_word() {
                    assert(s.take(5)[0] == s[0] && s.take(5)[1] == s[1] && s.take(5)[2] == s[2]
                        && s.take(5)[3] == s[3] && s.take(5)[4] == s[4]);
                }
            }
            assert(strip_level_word(s) == s);
            if start < len {
                let c = name.get_char(start);
                assert(s[0] == c);
                if c >= '0' && c <= '9' {
                    return Some((c as u32) - ('0' as u32));
                }
            }
            return None;
        }
    }
}

/// What a restart of the level comes to.
pub enum Restart {
    /// Leave a nested level: load the named one, which encloses it.
    Reload(String),
    /// The outermost level: put the player back at its start.
    Respawn,
}

/// Jumps left, and the levels entered, the current one last.
pub struct Progress {
    jumps: usize,
    levels: Vec<String>,
}

impl Progress {
    pub closed spec fn jumps(&self) -> nat {
        self.jumps as nat
    }

    /// The names of the levels entered, outermost first.
    pub closed spec fn levels(&self) -> Seq<Seq<char>> {
        self.levels@.map_values(|l: String| l@)
    }

    pub closed spec fn wf(&self) -> bool {
        self.levels@.len() > 0
    }

    /// Starts in the level `first`, with full jumps.
    pub fn new(first: String) -> (r: Self)
        ensures
            r.wf(),
            r.jumps() == FULL_JUMPS,
            r.levels() == seq![first@],
    {
        let mut levels: Vec<String> = Vec::new();
        let ghost name = first@;
        levels.push(first);
        let r = Progress { jumps: FULL_JUMPS, levels };
        assert(r.levels() =~= seq![name]);
        r
    }

    pub fn jumps_left(&self) -> (r: usize)
        ensures
            r == self.jumps(),
    {
        self.jumps
    }

    /// The name of the current level.
    pub fn current_level(&self) -> (r: &String)
        requires
            self.wf(),
        ensures
            r@ == self.levels().last(),
    {
        &self.levels[self.levels.len() - 1]
    }

    /// Uses up one jump, if one is left, and says whether it did.
    pub fn jump(&mut self) -> (r: bool)
        ensures
            r == (old(self).jumps() > 0),
            final(self).jumps() == if r {
                old(self).jumps() - 1
            } else {
                0
            },
            final(self).levels() == old(self).levels(),
            final(self).wf() == old(self).wf(),
    {
        if self.jumps != 0 {
            self.jumps = self.jumps - 1;
            true
        } else {
            false
        }
    }

    /// Gives the player full jumps again.
    pub fn refill_jumps(&mut self)
        ensures
            final(self).jumps() == FULL_JUMPS,
            final(self).levels() == old(self).levels(),
            final(self).wf() == old(self).wf(),
    {
        self.jumps = FULL_JUMPS;
    }

    /// Enters the level `name`, nested in the current one, with full jumps.
    pub fn enter_level(&mut self, name: String)
        ensures
            final(self).wf(),
            final(self).levels() == old(self).levels().push(name@),
            final(self).jumps() == FULL_JUMPS,
    {
        let ghost before = self.levels();
        let ghost added = name@;
        self.levels.push(name);
        self.jumps = FULL_JUMPS;
        assert(self.levels() =~= before.push(added));
    }

    /// Restarts after the player died: a nested level is left for the one
    /// that encloses it, the outermost level puts the player back at its
    /// start. Jumps are untouched.
    pub fn restart(&mut self) -> (r: Restart)
        requires
            old(self).wf(),
        ensures
            final(self).wf(),
            final(self).jumps() == old(self).jumps(),
            old(self).levels().len() > 1 ==> final(self).levels() == old(self).levels().drop_last()
                && (r matches Restart::Reload(name) && name@ == final(self).levels().last()),
            old(self).levels().len() <= 1 ==> final(self).levels() == old(self).levels()
                && (r matches Restart::Respawn),
    {
        if self.levels.len() > 1 {
            let ghost before = self.levels();
            let _left = self.levels.pop();
            assert(self.levels() =~= before.drop_last());
            let name = self.levels[self.levels.len() - 1].clone();
            Restart::Reload(name)
        } else {
            Restart::Respawn
        }
    }

    /// The index of the current level, read from its name.
    pub fn level_index(&self) -> (r: Option<u32>)
        requires
            self.wf(),
        ensures
            r == level_index_of(self.levels().last()),
    {
        level_index(self.levels[self.levels.len() - 1].as_str())
    }

    /// Carries out what a tick left for its end: a player that `died`
    /// restarts the level (as `restart` does), and a player that `landed` on
    /// a harmless entity gets full jumps again, after the restart.
    pub fn end_tick(&mut self, died: bool, landed: bool) -> (r: Option<Restart>)
        requires
            old(self).wf(),
        ensures
            final(self).wf(),
            r.is_some() == died,
            final(self).jumps() == if landed {
                FULL_JUMPS as nat
            } else {
                old(self).jumps()
            },
            died && old(self).levels().len() > 1 ==> final(self).levels() == old(self).levels().drop_last()
                && (r matches Some(Restart::Reload(name)) && name@ == final(self).levels().last()),
            died && old(self).levels().len() <= 1 ==> final(self).levels() == old(self).levels()
                && (r matches Some(Restart::Respawn)),
            !died ==> final(self).levels() == old(self).levels(),
    {
        let r = if died {
            Some(self.restart())
        } else {
            None
        };
        if landed {
            self.refill_jumps();
        }
        r
    }
}

} // verus!
