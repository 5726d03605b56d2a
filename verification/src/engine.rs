use crate::chart::{ActiveState, StateChart};
use crate::resolve::Pick;
use crate::tree::Kind;
use crate::traits::EventId;
use crate::trigger::{enabled, enabled_under, pack};
use vstd::prelude::*;

verus! {

/// The index that an optional state stands for; none stands for the top, `-1`.
pub open spec fn top_or(d: Option<usize>) -> int {
    match d {
        Some(d) => d as int,
        None => -1,
    }
}

impl StateChart {
    /// Tells whether the state holds an enabled transition.
    fn is_ready(&self, s: usize, event: &Option<Vec<EventId>>, guards: &Vec<u64>, completed: &Vec<bool>, elapsed: u64) -> (b: bool)
        requires
            s < self.size(),
        ensures
            b == self.ready(s as int, pack(*event, *guards, *completed), elapsed),
    {
        let moves = self.node(s).transitions();
        let mut k: usize = 0;
        while k < moves.len()
            invariant
                k <= moves.len(),
                moves@ == self.nodes()[s as int].moves(),
                forall|j: int| 0 <= j < k ==> !enabled(#[trigger] moves@[j], pack(*event, *guards, *completed), elapsed),
            decreases moves.len() - k,
        {
            if enabled_under(&moves[k], event, guards, completed, elapsed) {
                return true;
            }
            k = k + 1;
        }
        false
    }

    /// Finds the innermost state, from `l` outward, that holds an enabled
    /// transition.
    fn find_handler(&self, l: usize, event: &Option<Vec<EventId>>, guards: &Vec<u64>, completed: &Vec<bool>, elapsed: u64) -> (h: Option<usize>)
        requires
            l < self.size(),
        ensures
            top_or(h) == self.handler(l as int, pack(*event, *guards, *completed), elapsed),
            h matches Some(s) ==> s < self.size(),
    {
        let mut x: usize = l;
        loop
            invariant
                x < self.size(),
                self.handler(x as int, pack(*event, *guards, *completed), elapsed) == self.handler(
                    l as int,
                    pack(*event, *guards, *completed),
                    elapsed,
                ),
            decreases x,
        {
            if self.is_ready(x, event, guards, completed, elapsed) {
                return Some(x);
            }
            match self.parent_at(x) {
                Some(p) => {
                    x = p;
                },
                None => {
                    return None;
                },
            }
        }
    }

    /// Collects the candidates of a step, in document order.
    pub(crate) fn collect(&self, cfg: &Vec<bool>, event: &Option<Vec<EventId>>, guards: &Vec<u64>, completed: &Vec<bool>, elapsed: u64) -> (cands: Vec<
        Pick,
    >)
        requires
            cfg.len() == self.size(),
        ensures
            cands@ == self.candidates(cfg@, pack(*event, *guards, *completed), elapsed),
            forall|i: int| 0 <= i < cands@.len() ==> self.has_pick(#[trigger] cands@[i]),
    {
        let n = self.len();
        let mut marks: Vec<bool> = vec![false; n];
        let mut l: usize = 0;
        while l < n
            invariant
                l <= n,
                n == self.size(),
                cfg.len() == n,
                marks.len() == n,
                self.wf(),
                forall|s: int|
                    0 <= s < n ==> (#[trigger] marks@[s] <==> exists|m: int|
                        0 <= m < l && self.is_leaf(cfg@, m) && #[trigger] self.handler(
                            m,
                            pack(*event, *guards, *completed),
                            elapsed,
                        ) == s),
            decreases n - l,
        {
            if cfg[l] {
                let kind = self.kind_at(l);
                if kind == Kind::Atomic || kind == Kind::Final {
                    match self.find_handler(l, event, guards, completed, elapsed) {
                        Some(h) => {
                            marks.set(h, true);
                        },
                        None => {},
                    }
                }
            }
            l = l + 1;
        }
        let mut cands: Vec<Pick> = Vec::new();
        let mut s: usize = 0;
        while s < n
            invariant
                s <= n,
                n == self.size(),
                cfg.len() == n,
                marks.len() == n,
                self.wf(),
                forall|s: int|
                    0 <= s < n ==> (#[trigger] marks@[s] <==> self.sourced(
                        cfg@,
                        s,
                        pack(*event, *guards, *completed),
                        elapsed,
                    )),
                cands@ == self.candidates_upto(cfg@, s as int, pack(*event, *guards, *completed), elapsed),
            decreases n - s,
        {
            if marks[s] {
                let moves = self.node(s).transitions();
                let ghost base = cands@;
                let mut k: usize = 0;
                while k < moves.len()
                    invariant
                        k <= moves.len(),
                        s < n,
                        moves@ == self.nodes()[s as int].moves(),
                        cands@ == base + self.picks_in(s as int, k as int, pack(*event, *guards, *completed), elapsed),
                    decreases moves.len() - k,
                {
                    if enabled_under(&moves[k], event, guards, completed, elapsed) {
                        cands.push(Pick { state: s, index: k });
                    }
                    k = k + 1;
                }
            }
            s = s + 1;
        }
        proof {
            assert forall|i: int| 0 <= i < cands@.len() implies self.has_pick(
                #[trigger] cands@[i],
            ) by {
                self.lemma_candidate(cfg@, n as int, pack(*event, *guards, *completed), elapsed, i);
            }
        }
        cands
    }

    /// Tells whether `x` lies below `d`, where none stands for the top.
    pub(crate) fn lies_below(&self, x: usize, d: Option<usize>) -> (b: bool)
        requires
            x < self.size(),
        ensures
            b == self.shape().below(x as int, top_or(d)),
    {
        match d {
            None => {
                let n: usize = self.len();
                proof {
                    self.shape().lemma_below_top(x as int);
                }
                x < n
            },
            Some(q) => {
                let mut y: usize = x;
                loop
                    invariant
                        y < self.size(),
                        d == Some(q),
                        self.shape().below(y as int, q as int) == self.shape().below(
                            x as int,
                            q as int,
                        ),
                    decreases y,
                {
                    match self.parent_at(y) {
                        None => {
                            return false;
                        },
                        Some(p) => {
                            if p == q {
                                return true;
                            }
                            y = p;
                        },
                    }
                }
            },
        }
    }

    /// Finds the innermost state that contains the state `s` properly and that `t`
    /// lies below; none stands for the top.
    pub(crate) fn find_scope(&self, s: usize, t: usize) -> (d: Option<usize>)
        requires
            s < self.size(),
            t < self.size(),
        ensures
            top_or(d) == self.scope(self.shape().parent[s as int], t as int),
            d matches Some(q) ==> q < self.size(),
    {
        let mut a = self.parent_at(s);
        loop
            invariant
                t < self.size(),
                a matches Some(q) ==> q < self.size(),
                self.scope(top_or(a), t as int) == self.scope(
                    self.shape().parent[s as int],
                    t as int,
                ),
            decreases top_or(a) + 1,
        {
            match a {
                None => {
                    return None;
                },
                Some(q) => {
                    if self.lies_below(t, Some(q)) {
                        return Some(q);
                    }
                    a = self.parent_at(q);
                },
            }
        }
    }
}

} // verus!
