//! The walk that deletes a rule and its exceptions.
//!
//! A key can only be deleted once nothing is left below it, so the walk goes
//! down to the leaves first. It decides what to do next in the registry; what
//! came of it is handed back.

use crate::policy::MAX_DEPTH;
use crate::text::{bytes_text, text_from, texts};
use vstd::prelude::*;

verus! {

/// What to do next in the registry.
pub enum WalkAction {
    /// List the keys below the last opened one.
    ListChildren,
    /// Open the key of a name below the last opened one.
    OpenChild(String),
    /// Delete the last opened key; the one opened before it is then the last.
    DeleteKey,
    /// Commit the transaction: all is deleted.
    Commit,
    /// Give up without a commit.
    Refuse(String),
}

/// What came of it.
pub enum WalkEvent {
    /// The names that were listed; nothing for one that could not be read.
    Listed(Vec<Option<Vec<u8>>>),
    Opened,
    Deleted,
    Failed(String),
}

/// What to do next, as plain values.
pub enum Act {
    ListChildren,
    OpenChild(Seq<char>),
    DeleteKey,
    Commit,
    Refuse(Seq<char>),
}

/// What came of it, as plain values.
pub enum Ev {
    Listed(Seq<Seq<char>>),
    Opened,
    Deleted,
    Failed(Seq<char>),
}

impl View for WalkAction {
    type V = Act;

    open spec fn view(&self) -> Act {
        match self {
            WalkAction::ListChildren => Act::ListChildren,
            WalkAction::OpenChild(name) => Act::OpenChild(name@),
            WalkAction::DeleteKey => Act::DeleteKey,
            WalkAction::Commit => Act::Commit,
            WalkAction::Refuse(why) => Act::Refuse(why@),
        }
    }
}

/// The names of a listing that could be read, as texts.
pub open spec fn listed_names(listed: Seq<Option<Vec<u8>>>) -> Seq<Seq<char>>
    decreases listed.len(),
{
    if listed.len() == 0 {
        seq![]
    } else {
        match listed.last() {
            Some(name) => listed_names(listed.drop_last()).push(bytes_text(name@)),
            None => listed_names(listed.drop_last()),
        }
    }
}

impl View for WalkEvent {
    type V = Ev;

    open spec fn view(&self) -> Ev {
        match self {
            WalkEvent::Listed(listed) => Ev::Listed(listed_names(listed@)),
            WalkEvent::Opened => Ev::Opened,
            WalkEvent::Deleted => Ev::Deleted,
            WalkEvent::Failed(why) => Ev::Failed(why@),
        }
    }
}

/// A walk as plain values.
#[verifier::ext_equal]
pub struct WalkView {
    /// The depth of the key at which the walk began: the length of its path.
    pub base: nat,
    /// For each listed key that is still open, outermost first, the names below
    /// it that are still to be deleted.
    pub pending: Seq<Seq<Seq<char>>>,
}

impl WalkView {
    /// The depth of a key that is opened now.
    pub open spec fn depth(self) -> nat {
        self.base + self.pending.len()
    }

    /// What to do with a key that was just opened: it is refused only where it
    /// lies deeper than any rule that can be written.
    pub open spec fn entered(self) -> Act {
        if self.depth() > MAX_DEPTH + 1 {
            Act::Refuse("rule nesting too deep"@)
        } else {
            Act::ListChildren
        }
    }

    /// What to do where no key is being opened or listed: the next name of the
    /// last open key, the key itself once none is left, and the commit once no
    /// key is left.
    pub open spec fn next(self) -> (WalkView, Act) {
        if self.pending.len() == 0 {
            (self, Act::Commit)
        } else {
            let names = self.pending.last();
            if names.len() == 0 {
                (self, Act::DeleteKey)
            } else {
                (
                    WalkView {
                        pending: self.pending.drop_last().push(names.skip(1)),
                        ..self
                    },
                    Act::OpenChild(names[0]),
                )
            }
        }
    }

    /// The walk behind an event, and what to do then.
    pub open spec fn step(self, event: Ev) -> (WalkView, Act) {
        match event {
            Ev::Listed(names) => if self.depth() > MAX_DEPTH + 1 {
                (self, self.entered())
            } else {
                (WalkView { pending: self.pending.push(names), ..self }).next()
            },
            Ev::Opened => (self, self.entered()),
            Ev::Deleted => if self.pending.len() == 0 {
                (self, Act::Commit)
            } else {
                (WalkView { pending: self.pending.drop_last(), ..self }).next()
            },
            Ev::Failed(why) => (self, Act::Refuse(why)),
        }
    }
}

/// The walk that deletes a rule and its exceptions.
pub struct Walk {
    base: usize,
    pending: Vec<Vec<String>>,
}

impl View for Walk {
    type V = WalkView;

    closed spec fn view(&self) -> WalkView {
        WalkView {
            base: self.base as nat,
            // The names of a key are held last first.
            pending: self.pending@.map_values(|names: Vec<String>| texts(names@).reverse()),
        }
    }
}

impl Walk {
    /// The keys that the walk has listed lie no deeper than a rule that can be
    /// written.
    pub closed spec fn wf(&self) -> bool {
        self.pending@.len() > 0 ==> self.base + self.pending@.len() <= MAX_DEPTH + 2
    }

    /// A walk that begins at an opened key, by the key's depth; and what to do
    /// first.
    pub fn new(depth: usize) -> (r: (Walk, WalkAction))
        ensures
            r.0.wf(),
            r.0@ == (WalkView { base: depth as nat, pending: seq![] }),
            r.1@ == r.0@.entered(),
    {
        let walk = Walk { base: depth, pending: Vec::new() };
        assert(walk@.pending == Seq::<Seq<Seq<char>>>::empty());
        let action = walk.entered();
        (walk, action)
    }

    fn entered(&self) -> (r: WalkAction)
        requires
            self.wf(),
        ensures
            r@ == self@.entered(),
    {
        if self.base > MAX_DEPTH + 1 || self.base + self.pending.len() > MAX_DEPTH + 1 {
            WalkAction::Refuse("rule nesting too deep".to_owned())
        } else {
            WalkAction::ListChildren
        }
    }

    fn next(&mut self) -> (r: WalkAction)
        requires
            old(self).wf(),
        ensures
            final(self).wf(),
            (final(self)@, r@) == old(self)@.next(),
    {
        let ghost before = self@.pending;
        match self.pending.pop() {
            None => {
                assert(self@ == old(self)@);
                WalkAction::Commit
            },
            Some(mut names) => {
                let ghost had = texts(names@);
                assert(before.last() == had.reverse());
                match names.pop() {
                    None => {
                        assert(had.reverse().len() == 0);
                        self.pending.push(names);
                        assert(self@.pending == before);
                        WalkAction::DeleteKey
                    },
                    Some(name) => {
                        assert(had.reverse()[0] == name@);
                        assert(texts(names@).reverse() == had.reverse().skip(1));
                        self.pending.push(names);
                        assert(self@.pending == before.drop_last().push(had.reverse().skip(1)));
                        WalkAction::OpenChild(name)
                    },
                }
            },
        }
    }

    /// What to do behind an event.
    pub fn step(&mut self, event: WalkEvent) -> (r: WalkAction)
        requires
            old(self).wf(),
        ensures
            final(self).wf(),
            (final(self)@, r@) == old(self)@.step(event@),
    {
        match event {
            WalkEvent::Listed(listed) => {
                if self.base > MAX_DEPTH + 1 || self.base + self.pending.len() > MAX_DEPTH + 1 {
                    return self.entered();
                }
                let ghost before = self@.pending;
                let names = readable_names(listed.as_slice());
                self.pending.push(names);
                assert(self@.pending == before.push(listed_names(listed@)));
                self.next()
            },
            WalkEvent::Opened => self.entered(),
            WalkEvent::Deleted => {
                let ghost before = self@.pending;
                match self.pending.pop() {
                    None => {
                        assert(self@ == old(self)@);
                        WalkAction::Commit
                    },
                    Some(_) => {
                        assert(self@.pending == before.drop_last());
                        self.next()
                    },
                }
            },
            WalkEvent::Failed(why) => WalkAction::Refuse(why),
        }
    }
}

/// The names of a listing that could be read, last first.
fn readable_names(listed: &[Option<Vec<u8>>]) -> (r: Vec<String>)
    ensures
        texts(r@).reverse() == listed_names(listed@),
{
    let mut names: Vec<String> = Vec::new();
    let mut i: usize = listed.len();
    let ghost mut behind: Seq<Seq<char>> = seq![];
    assert(listed@.take(i as int) == listed@);
    assert(listed_names(listed@) + behind == listed_names(listed@));
    while i > 0
        invariant
            i <= listed@.len(),
            texts(names@).reverse() == behind,
            listed_names(listed@) == listed_names(listed@.take(i as int)) + behind,
        decreases i,
    {
        i -= 1;
        proof {
            assert(listed@.take(i + 1).drop_last() == listed@.take(i as int));
            assert(listed@.take(i + 1).last() == listed@[i as int]);
        }
        if let Some(name) = &listed[i] {
            let text = text_from(name.as_slice());
            let ghost had = texts(names@);
            names.push(text);
            proof {
                assert(texts(names@) == had.push(text@));
                behind = seq![text@] + behind;
                assert(texts(names@).reverse() == behind);
                assert(listed_names(listed@) == listed_names(listed@.take(i as int)) + behind);
            }
        }
    }
    assert(listed@.take(0) == Seq::<Option<Vec<u8>>>::empty());
    assert(listed_names(listed@) == behind);
    names
}

} // verus!
