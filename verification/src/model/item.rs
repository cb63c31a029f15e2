//! The enumerated fields of a work item.

use crate::text::slice::str_eq;
use vstd::prelude::*;

verus! {

/// The kind of a work item.
#[derive(Clone, Copy, Debug, PartialEq, Eq, Hash, Structural)]
pub enum Kind {
    Task,
    Goal,
    Bug,
}

impl Kind {
    /// The text form.
    pub open spec fn name(self) -> Seq<char> {
        match self {
            Kind::Task => "task"@,
            Kind::Goal => "goal"@,
            Kind::Bug => "bug"@,
        }
    }

    /// The kind whose text form is `s`.
    pub open spec fn named(s: Seq<char>) -> Option<Kind> {
        if s == "task"@ {
            Some(Kind::Task)
        } else if s == "goal"@ {
            Some(Kind::Goal)
        } else if s == "bug"@ {
            Some(Kind::Bug)
        } else {
            None
        }
    }

    /// Returns the canonical text form.
    pub fn as_str(self) -> (r: &'static str)
        ensures
            r@ == self.name(),
    {
        match self {
            Kind::Task => "task",
            Kind::Goal => "goal",
            Kind::Bug => "bug",
        }
    }

    /// Reads a kind from its text form.
    pub fn from_name(s: &str) -> (r: Option<Kind>)
        ensures
            r == Kind::named(s@),
    {
        if str_eq(s, "task") {
            Some(Kind::Task)
        } else if str_eq(s, "goal") {
            Some(Kind::Goal)
        } else if str_eq(s, "bug") {
            Some(Kind::Bug)
        } else {
            None
        }
    }

    /// Every kind is read back from its text form.
    pub proof fn name_reads_back(self)
        ensures
            Kind::named(self.name()) == Some(self),
    {
        reveal_strlit("task");
        reveal_strlit("goal");
        reveal_strlit("bug");
        assert("task"@[0] != "goal"@[0]);
        assert("task"@.len() != "bug"@.len());
        assert("goal"@.len() != "bug"@.len());
    }
}

/// The lifecycle state of a work item.
#[derive(Clone, Copy, Debug, PartialEq, Eq, Hash, Structural)]
pub enum State {
    Open,
    Doing,
    Done,
    Archived,
}

impl State {
    /// The text form.
    pub open spec fn name(self) -> Seq<char> {
        match self {
            State::Open => "open"@,
            State::Doing => "doing"@,
            State::Done => "done"@,
            State::Archived => "archived"@,
        }
    }

    /// The state whose text form is `s`.
    pub open spec fn named(s: Seq<char>) -> Option<State> {
        if s == "open"@ {
            Some(State::Open)
        } else if s == "doing"@ {
            Some(State::Doing)
        } else if s == "done"@ {
            Some(State::Done)
        } else if s == "archived"@ {
            Some(State::Archived)
        } else {
            None
        }
    }

    /// Returns the canonical text form.
    pub fn as_str(self) -> (r: &'static str)
        ensures
            r@ == self.name(),
    {
        match self {
            State::Open => "open",
            State::Doing => "doing",
            State::Done => "done",
            State::Archived => "archived",
        }
    }

    /// Reads a state from its text form.
    pub fn from_name(s: &str) -> (r: Option<State>)
        ensures
            r == State::named(s@),
    {
        if str_eq(s, "open") {
            Some(State::Open)
        } else if str_eq(s, "doing") {
            Some(State::Doing)
        } else if str_eq(s, "done") {
            Some(State::Done)
        } else if str_eq(s, "archived") {
            Some(State::Archived)
        } else {
            None
        }
    }

    /// Every state is read back from its text form.
    pub proof fn name_reads_back(self)
        ensures
            State::named(self.name()) == Some(self),
    {
        reveal_strlit("open");
        reveal_strlit("doing");
        reveal_strlit("done");
        reveal_strlit("archived");
        assert("open"@.len() != "doing"@.len());
        assert("open"@[0] != "done"@[0]);
        assert("open"@.len() != "archived"@.len());
        assert("doing"@.len() != "done"@.len());
        assert("doing"@.len() != "archived"@.len());
        assert("done"@.len() != "archived"@.len());
    }
}

/// The urgency of a work item.
#[derive(Clone, Copy, Debug, PartialEq, Eq, Hash, Structural)]
pub enum Urgency {
    Urgent,
    Default,
    Punt,
}

impl Urgency {
    /// The text form.
    pub open spec fn name(self) -> Seq<char> {
        match self {
            Urgency::Urgent => "urgent"@,
            Urgency::Default => "default"@,
            Urgency::Punt => "punt"@,
        }
    }

    /// The urgency whose text form is `s`.
    pub open spec fn named(s: Seq<char>) -> Option<Urgency> {
        if s == "urgent"@ {
            Some(Urgency::Urgent)
        } else if s == "default"@ {
            Some(Urgency::Default)
        } else if s == "punt"@ {
            Some(Urgency::Punt)
        } else {
            None
        }
    }

    /// Returns the canonical text form.
    pub fn as_str(self) -> (r: &'static str)
        ensures
            r@ == self.name(),
    {
        match self {
            Urgency::Urgent => "urgent",
            Urgency::Default => "default",
            Urgency::Punt => "punt",
        }
    }

    /// Reads a urgency from its text form.
    pub fn from_name(s: &str) -> (r: Option<Urgency>)
        ensures
            r == Urgency::named(s@),
    {
        if str_eq(s, "urgent") {
            Some(Urgency::Urgent)
        } else if str_eq(s, "default") {
            Some(Urgency::Default)
        } else if str_eq(s, "punt") {
            Some(Urgency::Punt)
        } else {
            None
        }
    }

    /// Every urgency is read back from its text form.
    pub proof fn name_reads_back(self)
        ensures
            Urgency::named(self.name()) == Some(self),
    {
        reveal_strlit("urgent");
        reveal_strlit("default");
        reveal_strlit("punt");
        assert("urgent"@.len() != "default"@.len());
        assert("urgent"@.len() != "punt"@.len());
        assert("default"@.len() != "punt"@.len());
    }
}

/// The t-shirt size of a work item.
#[derive(Clone, Copy, Debug, PartialEq, Eq, Hash, Structural)]
pub enum Size {
    Xxs,
    Xs,
    S,
    M,
    L,
    Xl,
    Xxl,
}

impl Size {
    /// The text form.
    pub open spec fn name(self) -> Seq<char> {
        match self {
            Size::Xxs => "xxs"@,
            Size::Xs => "xs"@,
            Size::S => "s"@,
            Size::M => "m"@,
            Size::L => "l"@,
            Size::Xl => "xl"@,
            Size::Xxl => "xxl"@,
        }
    }

    /// The size whose text form is `s`.
    pub open spec fn named(s: Seq<char>) -> Option<Size> {
        if s == "xxs"@ {
            Some(Size::Xxs)
        } else if s == "xs"@ {
            Some(Size::Xs)
        } else if s == "s"@ {
            Some(Size::S)
        } else if s == "m"@ {
            Some(Size::M)
        } else if s == "l"@ {
            Some(Size::L)
        } else if s == "xl"@ {
            Some(Size::Xl)
        } else if s == "xxl"@ {
            Some(Size::Xxl)
        } else {
            None
        }
    }

    /// Returns the canonical text form.
    pub fn as_str(self) -> (r: &'static str)
        ensures
            r@ == self.name(),
    {
        match self {
            Size::Xxs => "xxs",
            Size::Xs => "xs",
            Size::S => "s",
            Size::M => "m",
            Size::L => "l",
            Size::Xl => "xl",
            Size::Xxl => "xxl",
        }
    }

    /// Reads a size from its text form.
    pub fn from_name(s: &str) -> (r: Option<Size>)
        ensures
            r == Size::named(s@),
    {
        if str_eq(s, "xxs") {
            Some(Size::Xxs)
        } else if str_eq(s, "xs") {
            Some(Size::Xs)
        } else if str_eq(s, "s") {
            Some(Size::S)
        } else if str_eq(s, "m") {
            Some(Size::M)
        } else if str_eq(s, "l") {
            Some(Size::L)
        } else if str_eq(s, "xl") {
            Some(Size::Xl)
        } else if str_eq(s, "xxl") {
            Some(Size::Xxl)
        } else {
            None
        }
    }

    /// Every size is read back from its text form.
    pub proof fn name_reads_back(self)
        ensures
            Size::named(self.name()) == Some(self),
    {
        reveal_strlit("xxs");
        reveal_strlit("xs");
        reveal_strlit("s");
        reveal_strlit("m");
        reveal_strlit("l");
        reveal_strlit("xl");
        reveal_strlit("xxl");
        assert("xxs"@.len() != "xs"@.len());
        assert("xxs"@.len() != "s"@.len());
        assert("xxs"@.len() != "m"@.len());
        assert("xxs"@.len() != "l"@.len());
        assert("xxs"@.len() != "xl"@.len());
        assert("xxs"@[2] != "xxl"@[2]);
        assert("xs"@.len() != "s"@.len());
        assert("xs"@.len() != "m"@.len());
        assert("xs"@.len() != "l"@.len());
        assert("xs"@[1] != "xl"@[1]);
        assert("xs"@.len() != "xxl"@.len());
        assert("s"@[0] != "m"@[0]);
        assert("s"@[0] != "l"@[0]);
        assert("s"@.len() != "xl"@.len());
        assert("s"@.len() != "xxl"@.len());
        assert("m"@[0] != "l"@[0]);
        assert("m"@.len() != "xl"@.len());
        assert("m"@.len() != "xxl"@.len());
        assert("l"@.len() != "xl"@.len());
        assert("l"@.len() != "xxl"@.len());
        assert("xl"@.len() != "xxl"@.len());
    }
}

}
