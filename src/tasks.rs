//! The task list of each week of the season.

use vstd::prelude::*;
use crate::season::SEASON_LENGTH;

verus! {

/// Week lists of task texts.
pub type TaskLists = Seq<Seq<Seq<char>>>;

/// `lists` with `entry.1` appended to the list of week `entry.0`.
pub open spec fn file_task(lists: TaskLists, entry: (int, Seq<char>)) -> TaskLists {
    if 0 <= entry.0 < lists.len() {
        lists.update(entry.0, lists[entry.0].push(entry.1))
    } else {
        lists
    }
}

/// `lists` with each entry of `entries` filed in turn.
pub open spec fn file_tasks(lists: TaskLists, entries: Seq<(int, Seq<char>)>) -> TaskLists
    decreases entries.len(),
{
    if entries.len() == 0 {
        lists
    } else {
        file_task(file_tasks(lists, entries.drop_last()), entries.last())
    }
}

/// Filing two runs of entries is filing their concatenation.
pub proof fn lemma_file_tasks_concat(lists: TaskLists, a: Seq<(int, Seq<char>)>, b: Seq<(int, Seq<char>)>)
    ensures
        file_tasks(lists, a + b) == file_tasks(file_tasks(lists, a), b),
    decreases b.len(),
{
    if b.len() == 0 {
        assert(a + b =~= a);
    } else {
        assert((a + b).drop_last() =~= a + b.drop_last());
        assert((a + b).last() == b.last());
        lemma_file_tasks_concat(lists, a, b.drop_last());
    }
}

/// Filing keeps the number of weeks.
pub proof fn lemma_file_tasks_len(lists: TaskLists, entries: Seq<(int, Seq<char>)>)
    ensures
        file_tasks(lists, entries).len() == lists.len(),
    decreases entries.len(),
{
    if entries.len() > 0 {
        lemma_file_tasks_len(lists, entries.drop_last());
    }
}

/// Filing one more entry.
pub proof fn lemma_file_tasks_push(lists: TaskLists, a: Seq<(int, Seq<char>)>, e: (int, Seq<char>))
    ensures
        file_tasks(lists, a.push(e)) == file_task(file_tasks(lists, a), e),
{
    assert(a.push(e).drop_last() =~= a);
}

/// One empty list per week.
pub open spec fn empty_lists() -> TaskLists {
    Seq::new(SEASON_LENGTH as nat, |_w: int| Seq::<Seq<char>>::empty())
}

/// The tasks of each week as specified by a crop plan.
pub struct Tasks {
    content: Vec<Vec<String>>,
}

impl View for Tasks {
    type V = TaskLists;

    closed spec fn view(&self) -> TaskLists {
        self.content@.map_values(|v: Vec<String>| v@.map_values(|s: String| s@))
    }
}

impl Tasks {
    /// No task in any week.
    pub fn new() -> (r: Tasks)
        ensures
            r@ == empty_lists(),
    {
        let mut content: Vec<Vec<String>> = Vec::new();
        let mut w: usize = 0;
        while w < SEASON_LENGTH
            invariant
                w <= SEASON_LENGTH,
                content@.len() == w,
                forall|k: int| 0 <= k < w ==> (#[trigger] content@[k])@.len() == 0,
            decreases SEASON_LENGTH - w,
        {
            content.push(Vec::new());
            w = w + 1;
        }
        let r = Tasks { content };
        assert(r@ =~= empty_lists()) by {
            assert forall|k: int| 0 <= k < SEASON_LENGTH implies #[trigger] r@[k] == Seq::<Seq<char>>::empty() by {
                assert(r@[k] =~= Seq::<Seq<char>>::empty());
            }
        }
        r
    }

    /// Appends `ins` to the tasks of `week`.
    pub fn add(&mut self, week: usize, ins: &String)
        requires
            week < old(self)@.len(),
        ensures
            final(self)@ == file_task(old(self)@, (week as int, ins@)),
    {
        let ghost before = self@;
        self.content[week].push(ins.clone());
        proof {
            assert(self@[week as int] =~= before[week as int].push(ins@));
            assert(self@ =~= file_task(before, (week as int, ins@)));
        }
    }

    /// The tasks of `week`.
    pub fn get(&self, week: usize) -> (r: &Vec<String>)
        requires
            week < self@.len(),
        ensures
            r@.map_values(|s: String| s@) == self@[week as int],
    {
        &self.content[week]
    }
}

} // verus!
