//! What a task is, as far as assembling a command line reads it: a one-line
//! description, and either the handler that runs it or a group of named
//! children.
//!
//! The handler is whatever the caller runs a leaf with; nothing here reads
//! it, so it is a type parameter.

use vstd::prelude::*;

use crate::text::same_text;

verus! {

/// The names of a list of named entries, in order.
pub open spec fn keys<T>(entries: Seq<(&'static str, T)>) -> Seq<Seq<char>> {
    entries.map_values(|entry: (&'static str, T)| entry.0@)
}

/// What a task does: run its handler, or group named children.
pub enum Body<H> {
    /// A leaf, run by its handler.
    Handler(H),
    /// A bundle: named children, in the order they were given.
    Children(Vec<(&'static str, Task<H>)>),
}

/// One task: a one-line description, and either the handler that runs it or
/// a group of named children.
///
/// A task is never named here: the name it answers to is the key of
/// whatever mounts it.
pub struct Task<H> {
    about: &'static str,
    body: Body<H>,
}

/// Why a list of children cannot be grouped into a bundle.
#[derive(Debug, Clone, Copy, PartialEq, Eq)]
pub enum BundleFault {
    /// There are no children: a bundle with none can never run anything.
    NoChildren,
    /// Two children share this name.
    RepeatedName(&'static str),
    /// A child is called `help`, which clap adds under every group.
    ChildNamedHelp,
}

/// Whether `children` can be grouped into a bundle: at least one child,
/// distinct names, and none called `help`.
pub open spec fn is_bundle(children: Seq<Seq<char>>) -> bool {
    &&& children.len() > 0
    &&& children.no_duplicates()
    &&& !children.contains("help"@)
}

impl<H> Task<H> {
    /// The one-line description the task carries.
    pub closed spec fn spec_about(self) -> Seq<char> {
        self.about@
    }

    /// The task's children, when it is a bundle.
    pub closed spec fn spec_children(self) -> Option<Seq<(&'static str, Task<H>)>> {
        match self.body {
            Body::Children(children) => Some(children@),
            Body::Handler(_) => None,
        }
    }

    /// The task's handler, when it is a leaf.
    pub closed spec fn spec_handler(self) -> Option<H> {
        match self.body {
            Body::Handler(handler) => Some(handler),
            Body::Children(_) => None,
        }
    }

    /// Builds a leaf from its one-line description and its handler.
    pub fn leaf(about: &'static str, handler: H) -> (task: Self)
        ensures
            task.spec_about() == about@,
            task.spec_handler() == Some(handler),
            task.spec_children() is None,
    {
        Task { about, body: Body::Handler(handler) }
    }

    /// Builds a bundle: a task whose command is a group of named children.
    ///
    /// A list that [`bundle_fault`] refuses is not a bundle, and is not
    /// accepted here: a caller checks with [`bundle_fault`] first, and treats
    /// a refused list as a bug in the bundle's own source.
    pub fn group(about: &'static str, children: Vec<(&'static str, Task<H>)>) -> (task: Self)
        requires
            is_bundle(keys(children@)),
        ensures
            task.spec_about() == about@,
            task.spec_children() == Some(children@),
            task.spec_handler() is None,
    {
        Task { about, body: Body::Children(children) }
    }

    /// The one-line description `--help` shows for the task.
    pub fn about(&self) -> (about: &'static str)
        ensures
            about@ == self.spec_about(),
    {
        self.about
    }

    /// The task's handler, when it is a leaf.
    pub fn handler(&self) -> (handler: Option<&H>)
        ensures
            match handler {
                Some(handler) => self.spec_handler() == Some(*handler),
                None => self.spec_handler() is None,
            },
    {
        match &self.body {
            Body::Handler(handler) => Some(handler),
            Body::Children(_) => None,
        }
    }

    /// The task's children, when it is a bundle.
    pub fn children(&self) -> (children: Option<&[(&'static str, Task<H>)]>)
        ensures
            match children {
                Some(children) => self.spec_children() == Some(children@),
                None => self.spec_children() is None,
            },
    {
        match &self.body {
            Body::Children(children) => Some(children.as_slice()),
            Body::Handler(_) => None,
        }
    }

    /// Consumes the task and returns its children when it is a bundle, or
    /// gives the same task back, unconsumed, when it is not.
    pub fn into_children(self) -> (children: Result<Vec<(&'static str, Task<H>)>, Self>)
        ensures
            match children {
                Ok(children) => self.spec_children() == Some(children@),
                Err(task) => task == self && self.spec_children() is None,
            },
    {
        match self.body {
            Body::Children(children) => Ok(children),
            Body::Handler(handler) => Err(Task { about: self.about, body: Body::Handler(handler) }),
        }
    }
}

/// Why `children` cannot be grouped into a bundle, or `None` when it can:
/// no children is checked first, then a repeated name (the first child whose
/// name an earlier child already has), then a child called `help`.
pub fn bundle_fault<H>(children: &[(&'static str, Task<H>)]) -> (fault: Option<BundleFault>)
    ensures
        fault is None <==> is_bundle(keys(children@)),
        fault == Some(BundleFault::NoChildren) <==> children@.len() == 0,
        fault matches Some(BundleFault::RepeatedName(name)) ==> {
            &&& children@.len() > 0
            &&& !keys(children@).no_duplicates()
            &&& keys(children@).contains(name@)
        },
        fault == Some(BundleFault::ChildNamedHelp) ==> {
            &&& children@.len() > 0
            &&& keys(children@).no_duplicates()
            &&& keys(children@).contains("help"@)
        },
{
    if children.len() == 0 {
        return Some(BundleFault::NoChildren);
    }
    let mut index: usize = 0;
    while index < children.len()
        invariant
            index <= children@.len(),
            keys(children@).take(index as int).no_duplicates(),
        decreases children@.len() - index,
    {
        let name = children[index].0;
        let mut earlier: usize = 0;
        while earlier < index
            invariant
                index < children@.len(),
                earlier <= index,
                name == children@[index as int].0,
                forall|j: int| 0 <= j < earlier ==> keys(children@)[j] != name@,
            decreases index - earlier,
        {
            if same_text(children[earlier].0, name) {
                assert(keys(children@)[earlier as int] == children@[earlier as int].0@);
                assert(keys(children@)[index as int] == children@[index as int].0@);
                assert(keys(children@)[earlier as int] == keys(children@)[index as int]);
                assert(!keys(children@).no_duplicates());
                assert(keys(children@).contains(name@));
                return Some(BundleFault::RepeatedName(name));
            }
            earlier += 1;
        }
        assert(keys(children@).take(index + 1) =~= keys(children@).take(index as int).push(
            name@,
        ));
        index += 1;
    }
    assert(keys(children@).take(index as int) =~= keys(children@));
    let mut index: usize = 0;
    while index < children.len()
        invariant
            index <= children@.len(),
            children@.len() > 0,
            keys(children@).no_duplicates(),
            forall|j: int| 0 <= j < index ==> keys(children@)[j] != "help"@,
        decreases children@.len() - index,
    {
        if same_text(children[index].0, "help") {
            assert(keys(children@)[index as int] == children@[index as int].0@);
            return Some(BundleFault::ChildNamedHelp);
        }
        assert(keys(children@)[index as int] == children@[index as int].0@);
        index += 1;
    }
    None
}

/// One step of declaring a task tree to a command-line parser, in the
/// order a parser's builder takes them: a bundle opens, its children are
/// declared in order, and it closes; a leaf is declared with its handler.
pub enum Declaration<'a, H> {
    /// A bundle named `name` opens.
    Open { name: &'static str, about: &'static str },
    /// A leaf named `name`, run by `handler`.
    Leaf { name: &'static str, about: &'static str, handler: &'a H },
    /// The bundle opened last closes.
    Close,
}

/// A declaration step as plain values.
pub enum Step<H> {
    Open(Seq<char>, Seq<char>),
    Leaf(Seq<char>, Seq<char>, H),
    Close,
}

/// The steps as plain values.
pub open spec fn steps_view<'a, H>(steps: Seq<Declaration<'a, H>>) -> Seq<Step<H>> {
    steps.map_values(
        |step: Declaration<'a, H>|
            match step {
                Declaration::Open { name, about } => Step::Open(name@, about@),
                Declaration::Leaf { name, about, handler } => Step::Leaf(name@, about@, *handler),
                Declaration::Close => Step::Close,
            },
    )
}

/// The steps that declare `task` under `name`: a leaf is one step; a bundle
/// opens, declares each child under its own name in order, and closes.
pub closed spec fn declared<H>(name: Seq<char>, task: Task<H>) -> Seq<Step<H>>
    decreases task,
{
    match task.body {
        Body::Handler(handler) => seq![Step::Leaf(name, task.about@, handler)],
        Body::Children(children) => seq![Step::Open(name, task.about@)] + declared_children(
            children@,
        ) + seq![Step::Close],
    }
}

/// The steps that declare each of `children` under its own name, in order.
pub closed spec fn declared_children<H>(children: Seq<(&'static str, Task<H>)>) -> Seq<Step<H>>
    decreases children,
{
    if children.len() == 0 {
        Seq::empty()
    } else {
        declared_children(children.drop_last()) + declared(
            children.last().0@,
            children.last().1,
        )
    }
}

/// What declaring a task gives: one step for a leaf, with its handler; for
/// a bundle, an opening step, its children's steps in order, and a closing
/// step.
pub proof fn declaring_opens_and_closes_bundles<H>(name: Seq<char>, task: Task<H>)
    ensures
        match task.spec_children() {
            None => declared(name, task) == seq![
                Step::Leaf(name, task.spec_about(), task.spec_handler()->0),
            ],
            Some(children) => declared(name, task) == seq![Step::Open(name, task.spec_about())]
                + declared_children(children) + seq![Step::Close],
        },
{
}

/// Declaring a list of children declares each, in order, after the ones
/// before it.
pub proof fn children_are_declared_in_order<H>(children: Seq<(&'static str, Task<H>)>)
    ensures
        children.len() == 0 ==> declared_children(children) == Seq::<Step<H>>::empty(),
        children.len() > 0 ==> declared_children(children) == declared_children(
            children.drop_last(),
        ) + declared(children.last().0@, children.last().1),
{
}

/// The bundles open while declaring, outermost first, each with the
/// position of the next child to declare, as plain values.
spec fn frames_view<'a, H>(frames: Seq<(&'a [(&'static str, Task<H>)], usize)>) -> Seq<
    (Seq<(&'static str, Task<H>)>, int),
> {
    frames.map_values(|frame: (&'a [(&'static str, Task<H>)], usize)| (frame.0@, frame.1 as int))
}

/// The steps still to come for the bundles open on `frames`: the rest of
/// the innermost one's children and its close, then the same for each
/// bundle around it.
spec fn pending<H>(frames: Seq<(Seq<(&'static str, Task<H>)>, int)>) -> Seq<Step<H>>
    decreases frames.len(),
{
    if frames.len() == 0 {
        Seq::empty()
    } else {
        declared_children(frames.last().0.skip(frames.last().1)) + seq![Step::Close] + pending(
            frames.drop_last(),
        )
    }
}

/// Declaring a list of children declares the first, then the rest.
proof fn lemma_declared_children_front<H>(children: Seq<(&'static str, Task<H>)>)
    requires
        children.len() > 0,
    ensures
        declared_children(children) == declared(children[0].0@, children[0].1)
            + declared_children(children.drop_first()),
    decreases children.len(),
{
    if children.len() == 1 {
        assert(children.drop_last() =~= Seq::<(&'static str, Task<H>)>::empty());
        assert(children.drop_first() =~= Seq::<(&'static str, Task<H>)>::empty());
        assert(declared_children(children.drop_last()) =~= Seq::<Step<H>>::empty());
        assert(declared_children(children.drop_first()) =~= Seq::<Step<H>>::empty());
        assert(children.last() == children[0]);
        assert(declared_children(children) =~= declared(children[0].0@, children[0].1));
        assert(declared(children[0].0@, children[0].1) + Seq::<Step<H>>::empty() =~= declared(
            children[0].0@,
            children[0].1,
        ));
    } else {
        let shorter = children.drop_last();
        lemma_declared_children_front(shorter);
        assert(shorter.drop_first() =~= children.drop_first().drop_last());
        assert(children.drop_first().last() == children.last());
        assert(shorter[0] == children[0]);
        let first = declared(children[0].0@, children[0].1);
        let last = declared(children.last().0@, children.last().1);
        assert(declared_children(children) == first + declared_children(shorter.drop_first())
            + last);
        assert(declared_children(children.drop_first()) == declared_children(
            children.drop_first().drop_last(),
        ) + last);
        assert(first + declared_children(shorter.drop_first()) + last =~= first + (
        declared_children(shorter.drop_first()) + last));
    }
}

/// The steps that declare `task` under `name`, in the order a parser's
/// builder takes them: bundles open and close, leaves come in child order.
/// The tree is walked with an explicit stack of open bundles rather than by
/// recursion, so nesting depth never becomes call depth.
pub fn declaration_steps<'a, H>(task: &'a Task<H>, name: &'static str) -> (steps: Vec<
    Declaration<'a, H>,
>)
    ensures
        steps_view(steps@) == declared(name@, *task),
{
    let mut steps: Vec<Declaration<'a, H>> = Vec::new();
    let children = match &task.body {
        Body::Handler(handler) => {
            steps.push(Declaration::Leaf { name, about: task.about, handler });
            assert(steps_view(steps@) =~= declared(name@, *task));
            return steps;
        },
        Body::Children(children) => children,
    };
    let ghost whole = declared(name@, *task);
    steps.push(Declaration::Open { name, about: task.about });
    let mut frames: Vec<(&'a [(&'static str, Task<H>)], usize)> = Vec::new();
    frames.push((children.as_slice(), 0));
    proof {
        let fv = frames_view(frames@);
        assert(fv =~= seq![(children@, 0int)]);
        assert(fv.drop_last() =~= Seq::<(Seq<(&'static str, Task<H>)>, int)>::empty());
        assert(children@.skip(0) =~= children@);
        assert(fv.last() == (children@, 0int));
        assert(pending(fv.drop_last()) =~= Seq::<Step<H>>::empty());
        assert(pending(fv) == declared_children(children@) + seq![Step::Close] + Seq::<
            Step<H>,
        >::empty());
        assert(pending(fv) =~= declared_children(children@) + seq![Step::Close]);
        assert(steps_view(steps@) =~= seq![Step::Open(name@, task.about@)]);
        assert(steps_view(steps@) + pending(fv) =~= whole);
    }
    while frames.len() > 0
        invariant
            steps_view(steps@) + pending(frames_view(frames@)) == whole,
            forall|k: int| 0 <= k < frames@.len() ==> (#[trigger] frames@[k]).1 <= frames@[k].0@.len(),
        decreases whole.len() - steps@.len(),
    {
        let ghost before = frames_view(frames@);
        let ghost done = steps_view(steps@);
        let top = frames.len() - 1;
        let (list, index) = frames[top];
        let ghost rest = before.drop_last();
        proof {
            assert(before.last() == (list@, index as int));
            assert(pending(before) == declared_children(list@.skip(index as int)) + seq![
                Step::Close,
            ] + pending(rest));
        }
        if index < list.len() {
            let child_name = list[index].0;
            let child = &list[index].1;
            frames.set(top, (list, index + 1));
            let ghost after = frames_view(frames@);
            proof {
                assert(after.drop_last() =~= rest);
                assert(after.last() == (list@, index + 1));
                lemma_declared_children_front(list@.skip(index as int));
                assert(list@.skip(index as int).drop_first() =~= list@.skip(index + 1));
                assert(list@.skip(index as int)[0] == list@[index as int]);
                assert(pending(after) == declared_children(list@.skip(index + 1)) + seq![
                    Step::Close,
                ] + pending(rest));
            }
            match &child.body {
                Body::Handler(handler) => {
                    steps.push(Declaration::Leaf { name: child_name, about: child.about, handler });
                    proof {
                        assert(declared(child_name@, *child) == seq![
                            Step::Leaf(child_name@, child.about@, *handler),
                        ]);
                        assert(steps_view(steps@) =~= done + seq![
                            Step::Leaf(child_name@, child.about@, *handler),
                        ]);
                        assert(steps_view(steps@) + pending(after) =~= done + pending(before));
                    }
                },
                Body::Children(grandchildren) => {
                    steps.push(Declaration::Open { name: child_name, about: child.about });
                    frames.push((grandchildren.as_slice(), 0));
                    proof {
                        let deeper = frames_view(frames@);
                        assert(deeper.drop_last() =~= after);
                        assert(deeper.last() == (grandchildren@, 0int));
                        assert(grandchildren@.skip(0) =~= grandchildren@);
                        assert(declared(child_name@, *child) == seq![
                            Step::Open(child_name@, child.about@),
                        ] + declared_children(grandchildren@) + seq![Step::Close]);
                        assert(steps_view(steps@) =~= done + seq![
                            Step::Open(child_name@, child.about@),
                        ]);
                        assert(steps_view(steps@) + pending(deeper) =~= done + pending(before));
                    }
                },
            }
        } else {
            frames.pop();
            steps.push(Declaration::Close);
            proof {
                assert(frames_view(frames@) =~= rest);
                assert(list@.skip(index as int) =~= Seq::<(&'static str, Task<H>)>::empty());
                assert(declared_children(list@.skip(index as int)) =~= Seq::<Step<H>>::empty());
                assert(steps_view(steps@) =~= done + seq![Step::Close]);
                assert(steps_view(steps@) + pending(rest) =~= done + pending(before));
            }
        }
    }
    assert(frames_view(frames@) =~= Seq::<(Seq<(&'static str, Task<H>)>, int)>::empty());
    assert(steps_view(steps@) + Seq::<Step<H>>::empty() =~= steps_view(steps@));
    steps
}

} // verus!
