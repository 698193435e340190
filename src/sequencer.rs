//! The sequencer: assigns each item of a traversal its index and destination name, and hands
//! them to a visitor that decides whether the run goes on.
use crate::digits::{hint_width, max_size_hint_digits};
use crate::pattern::{render, RenameContext, RenameModel, RenameSpec};
use crate::traversal::Traversal;
use core::ops::ControlFlow;
use vstd::prelude::*;

verus! {

/// One call of a visitor: the index, the item and the destination name it was handed, and
/// what it answered.
pub ghost struct Visit<T, E> {
    pub idx: nat,
    pub from: T,
    pub to: Seq<char>,
    pub flow: ControlFlow<E>,
}

/// The reaction to each renaming of a run: it goes on with `Continue`, or stops the run with
/// `Break` and an error that the run then returns.
pub trait Visitor<T> {
    type Error;

    /// Every call of `visit` so far, in order. An implementation that is verified defines it;
    /// the default leaves it unspecified.
    closed spec fn visits(&self) -> Seq<Visit<T, Self::Error>> {
        arbitrary()
    }

    fn visit(&mut self, idx: usize, from: &T, to: String) -> (r: ControlFlow<Self::Error>)
        ensures
            final(self).visits() == old(self).visits().push(
                Visit { idx: idx as nat, from: *from, to: to@, flow: r },
            ),
    ;
}

/// `v` is the `i`-th visit of a run over `items` with pattern `m` and width `width`.
pub open spec fn is_run_visit<T, E>(
    v: Visit<T, E>,
    items: Seq<T>,
    m: RenameModel,
    width: nat,
    i: int,
) -> bool {
    v.idx == i && v.from == items[i] && v.to == render(m, i as nat, width)
}

/// One renaming: the index assigned to an item, the item, and its destination name.
pub struct RenameTask<'a, T> {
    pub idx: usize,
    pub from: &'a T,
    pub to: String,
}

/// The state of a run: the traversal, the pattern, the padding width fixed at the start, and
/// the index of the next item.
pub struct Sequencer<'a, T> {
    files: Traversal<'a, T>,
    rename_spec: RenameSpec,
    max_size_hint_digits: usize,
    idx: usize,
    all: Ghost<Seq<T>>,
}

impl<'a, T> Sequencer<'a, T> {
    pub closed spec fn wf(&self) -> bool {
        &&& self.files.wf()
        &&& self.idx + self.files.order().len() == self.all@.len()
        &&& self.files.order() == self.all@.subrange(self.idx as int, self.all@.len() as int)
        &&& self.all@.len() <= usize::MAX
    }

    /// Every item of the run, in the order of the traversal.
    pub closed spec fn items(&self) -> Seq<T> {
        self.all@
    }

    /// The index that the next item gets.
    pub closed spec fn next_idx(&self) -> nat {
        self.idx as nat
    }

    /// The padding width of the run.
    pub closed spec fn width(&self) -> nat {
        self.max_size_hint_digits as nat
    }

    /// The compiled pattern of the run.
    pub closed spec fn pattern(&self) -> RenameSpec {
        self.rename_spec
    }

    /// Starts a run over `files`: the padding width comes from its size hint.
    pub fn new(files: Traversal<'a, T>, rename_spec: RenameSpec) -> (r: Self)
        requires
            files.wf(),
        ensures
            r.wf(),
            r.items() == files.order(),
            r.next_idx() == 0,
            r.width() == hint_width(files.order().len(), Some(files.order().len() as usize)),
            r.pattern() == rename_spec,
    {
        let hint = files.size_hint();
        let max_size_hint_digits = max_size_hint_digits(hint);
        let ghost all = files.order();
        assert(all.subrange(0, all.len() as int) =~= all);
        Sequencer { files, rename_spec, max_size_hint_digits, idx: 0, all: Ghost(all) }
    }

    /// The next renaming of the run: the next item of the traversal, with the next index and
    /// the destination name that the pattern gives for it; `None` once the items run out.
    pub fn next_task(&mut self) -> (r: Option<RenameTask<'a, T>>)
        requires
            old(self).wf(),
        ensures
            final(self).wf(),
            final(self).next_idx() <= final(self).items().len(),
            final(self).items() == old(self).items(),
            final(self).width() == old(self).width(),
            final(self).pattern() == old(self).pattern(),
            old(self).next_idx() == old(self).items().len() ==> r is None
                && final(self).next_idx() == old(self).next_idx(),
            old(self).next_idx() < old(self).items().len() ==> r is Some && final(self).next_idx()
                == old(self).next_idx() + 1 && r.unwrap().idx == old(self).next_idx()
                && *r.unwrap().from == old(self).items()[old(self).next_idx() as int]
                && r.unwrap().to@ == render(
                old(self).pattern()@,
                old(self).next_idx(),
                old(self).width(),
            ),
    {
        match self.files.next() {
            None => None,
            Some(from) => {
                let idx = self.idx;
                let mut to = String::new();
                self.rename_spec.write(
                    &RenameContext { idx, max_size_hint_digits: self.max_size_hint_digits },
                    &mut to,
                );
                self.idx = idx + 1;
                assert(self.all@.subrange(idx as int, self.all@.len() as int).drop_first()
                    =~= self.all@.subrange(self.idx as int, self.all@.len() as int));
                Some(RenameTask { idx, from, to })
            },
        }
    }
}

/// Renames the items of `files` after `rename_spec`: the `i`-th item of the traversal gets
/// index `i` and its destination name, whose padding width is the digit count of the run's
/// size hint (exact for a traversal, so the digit count of the number of items), and goes to
/// `visitor`. The run stops at the first `Break(e)` and returns
/// `Err(e)`; it returns `Ok` once every item was visited and each visit went on.
pub fn zip_single_side_scans<'a, T, V: Visitor<T>>(
    files: Traversal<'a, T>,
    rename_spec: RenameSpec,
    visitor: &mut V,
) -> (r: Result<(), V::Error>)
    requires
        files.wf(),
    ensures
        ({
            let items = files.order();
            let n = items.len();
            let width = hint_width(n, Some(n as usize));
            let before = old(visitor).visits();
            let after = final(visitor).visits();
            let k = after.len() - before.len();
            &&& before.len() <= after.len() <= before.len() + n
            &&& after.subrange(0, before.len() as int) == before
            &&& forall|i: int|
                0 <= i < k ==> is_run_visit(#[trigger] after[before.len() + i], items, rename_spec@, width, i)
            &&& forall|i: int| 0 <= i < k - 1 ==> (#[trigger] after[before.len() + i]).flow is Continue
            &&& r is Ok ==> k == n && (k == 0 || after.last().flow is Continue)
            &&& match r {
                Ok(_) => true,
                Err(e) => k >= 1 && after.last().flow == ControlFlow::<V::Error, ()>::Break(e),
            }
        }),
{
    let ghost items = files.order();
    let ghost n = items.len();
    let ghost before = visitor.visits();
    let mut run = Sequencer::new(files, rename_spec);
    let ghost width = run.width();
    let ghost m = run.pattern()@;
    loop
        invariant
            run.wf(),
            run.items() == items,
            items == files.order(),
            before == old(visitor).visits(),
            run.width() == width,
            run.pattern()@ == m,
            m == rename_spec@,
            n == items.len(),
            width == hint_width(n, Some(n as usize)),
            run.next_idx() <= n,
            visitor.visits().len() == before.len() + run.next_idx(),
            visitor.visits().subrange(0, before.len() as int) == before,
            forall|i: int|
                0 <= i < run.next_idx() ==> is_run_visit(
                    #[trigger] visitor.visits()[before.len() + i],
                    items,
                    m,
                    width,
                    i,
                ),
            forall|i: int|
                0 <= i < run.next_idx() ==> (#[trigger] visitor.visits()[before.len()
                    + i]).flow is Continue,
        decreases n - run.next_idx(),
    {
        let ghost prev = visitor.visits();
        match run.next_task() {
            None => {
                assert(run.next_idx() == n);
                assert(visitor.visits() == prev);
                proof {
                    if n > 0 {
                        assert(visitor.visits()[before.len() + (n - 1)].flow is Continue);
                    }
                }
                return Ok(());
            },
            Some(task) => {
                let flow = visitor.visit(task.idx, task.from, task.to);
                assert(visitor.visits().subrange(0, before.len() as int) =~= before);
                assert forall|i: int| 0 <= i < run.next_idx() implies is_run_visit(
                    #[trigger] visitor.visits()[before.len() + i],
                    items,
                    m,
                    width,
                    i,
                ) by {
                    if i < run.next_idx() - 1 {
                        assert(visitor.visits()[before.len() + i] == prev[before.len() + i]);
                    }
                }
                match flow {
                    ControlFlow::Continue(()) => {},
                    ControlFlow::Break(e) => {
                        assert(visitor.visits().last() == Visit {
                            idx: task.idx as nat,
                            from: *task.from,
                            to: task.to@,
                            flow: ControlFlow::<V::Error, ()>::Break(e),
                        });
                        assert forall|i: int| 0 <= i < run.next_idx() - 1 implies (
                        #[trigger] visitor.visits()[before.len() + i]).flow is Continue by {
                            assert(visitor.visits()[before.len() + i] == prev[before.len() + i]);
                        }
                        return Err(e);
                    },
                }
            },
        }
    }
}

} // verus!
