//! Instruction texts per week of the season.

use vstd::prelude::*;
use crate::season::SEASON_LENGTH;
use crate::tasks::{TaskLists, empty_lists, file_task};

verus! {

/// Instruction texts gathered per week of the season.
pub struct Instructions {
    content: Vec<Vec<String>>,
}

impl View for Instructions {
    type V = TaskLists;

    closed spec fn view(&self) -> TaskLists {
        self.content@.map_values(|v: Vec<String>| v@.map_values(|s: String| s@))
    }
}

impl Instructions {
    /// No instruction in any week.
    pub fn new() -> (r: Instructions)
        ensures
            r@ == empty_lists(),
    {
        let mut content: Vec<Vec<String>> = Vec::new();
        let mut w: usize = 0;
        while w < SEASON_LENGTH
            invariant
                w <= SEASON_LENGTH,
                content@.len() == w,
                forall|k: int| 0 <= k < w ==> (#[trigger] content@[k])@.len() == 0,
            decreases SEASON_LENGTH - w,
        {
            content.push(Vec::new());
            w = w + 1;
        }
        let r = Instructions { content };
        assert(r@ =~= empty_lists()) by {
            assert forall|k: int| 0 <= k < SEASON_LENGTH implies #[trigger] r@[k] == Seq::<Seq<char>>::empty() by {
                assert(r@[k] =~= Seq::<Seq<char>>::empty());
            }
        }
        r
    }

    /// Appends `ins` to the instructions of `week`.
    pub fn add(&mut self, week: usize, ins: &String)
        requires
            week < old(self)@.len(),
        ensures
            final(self)@ == file_task(old(self)@, (week as int, ins@)),
    {
        let ghost before = self@;
        self.content[week].push(ins.clone());
        proof {
            assert(self@[week as int] =~= before[week as int].push(ins@));
            assert(self@ =~= file_task(before, (week as int, ins@)));
        }
    }

    /// The instructions of `week`.
    pub fn get(&self, week: usize) -> (r: &Vec<String>)
        requires
            week < self@.len(),
        ensures
            r@.map_values(|s: String| s@) == self@[week as int],
    {
        &self.content[week]
    }
}

} // verus!
