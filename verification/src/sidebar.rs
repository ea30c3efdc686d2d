//! The layouts of the sidebar, as far as they decide which Git status is shown.
use vstd::prelude::*;

use crate::pairs::{key_at, keys_distinct, lemma_pair_at, pairs_map};
use crate::status::GitStatusRefreshDemand;

verus! {

/// What a place in a workspace row shows, without its decoration.
#[derive(Clone, Copy, Debug, PartialEq, Eq, Structural)]
pub enum SpaceSidebarToken {
    Workspace,
    Branch,
    GitStatus,
    /// Anything else that shows nothing of Git.
    Other,
}

/// What a place in an agent row shows, without its decoration.
#[derive(Clone, Copy, Debug, PartialEq, Eq, Structural)]
pub enum AgentSidebarToken {
    Workspace,
    Machine,
    Branch,
    Repo,
    Worktree,
    /// Anything else that shows nothing of Git.
    Other,
}

/// The tokens of a layout, row by row.
pub open spec fn rows_view<T>(rows: Seq<Vec<T>>) -> Seq<Seq<T>> {
    rows.map_values(|row: Vec<T>| row@)
}

/// Some row of a layout holds a token of the wanted kind.
pub open spec fn rows_show<T>(rows: Seq<Seq<T>>, wanted: spec_fn(T) -> bool) -> bool {
    exists|row: int, place: int|
        0 <= row < rows.len() && 0 <= place < rows[row].len() && wanted(#[trigger] rows[row][place])
}

/// The layout of workspace rows.
#[derive(Debug, PartialEq, Eq)]
pub struct SidebarSpaces {
    pub rows: Vec<Vec<SpaceSidebarToken>>,
}

impl View for SidebarSpaces {
    type V = Seq<Seq<SpaceSidebarToken>>;

    open spec fn view(&self) -> Seq<Seq<SpaceSidebarToken>> {
        rows_view(self.rows@)
    }
}

/// What the layouts of single agents stand for: the rows of each agent that has
/// a layout of its own.
pub type AgentLayoutsView = Map<Seq<char>, Seq<Seq<AgentSidebarToken>>>;

/// The agents with their rows by their views.
spec fn layouts_view(
    layouts: Seq<(String, Vec<Vec<AgentSidebarToken>>)>,
) -> Seq<(Seq<char>, Seq<Seq<AgentSidebarToken>>)> {
    layouts.map_values(
        |layout: (String, Vec<Vec<AgentSidebarToken>>)| (layout.0@, rows_view(layout.1@)),
    )
}

/// The layouts of single agents. Each agent has at most one.
#[derive(Debug)]
pub struct AgentLayouts {
    layouts: Vec<(String, Vec<Vec<AgentSidebarToken>>)>,
}

impl View for AgentLayouts {
    type V = AgentLayoutsView;

    closed spec fn view(&self) -> AgentLayoutsView {
        pairs_map(layouts_view(self.layouts@))
    }
}

impl AgentLayouts {
    #[verifier::type_invariant]
    spec fn well_formed(self) -> bool {
        keys_distinct(layouts_view(self.layouts@))
    }

    /// No agent has a layout of its own.
    pub fn new() -> (res: Self)
        ensures
            res@ == Map::<Seq<char>, Seq<Seq<AgentSidebarToken>>>::empty(),
    {
        let res = AgentLayouts { layouts: Vec::new() };
        assert(res@ =~= Map::<Seq<char>, Seq<Seq<AgentSidebarToken>>>::empty());
        res
    }

    /// Gives an agent a layout of its own, in place of an earlier one.
    pub fn insert(&mut self, agent: String, rows: Vec<Vec<AgentSidebarToken>>)
        ensures
            final(self)@ == old(self)@.insert(agent@, rows_view(rows@)),
    {
        proof {
            use_type_invariant(&*self);
        }
        let ghost before = layouts_view(self.layouts@);
        let ghost pair = (agent@, rows_view(rows@));
        let mut layouts: Vec<(String, Vec<Vec<AgentSidebarToken>>)> = Vec::new();
        std::mem::swap(&mut layouts, &mut self.layouts);
        let mut i: usize = 0;
        while i < layouts.len() && layouts[i].0 != agent
            invariant
                i <= layouts.len(),
                before == layouts_view(layouts@),
                forall|j: int| 0 <= j < i ==> !key_at(before, agent@, j),
            decreases layouts.len() - i,
        {
            i = i + 1;
        }
        if i < layouts.len() {
            layouts.set(i, (agent, rows));
            proof {
                crate::pairs::lemma_pairs_update(before, i as int, pair.1);
                assert(layouts_view(layouts@) =~= before.update(i as int, pair));
            }
        } else {
            layouts.push((agent, rows));
            proof {
                crate::pairs::lemma_pairs_push(before, pair.0, pair.1);
                assert(layouts_view(layouts@) =~= before.push(pair));
            }
        }
        self.layouts = layouts;
    }

    /// Whether the layout of some agent holds a token that is answered from the
    /// repository of the pane.
    fn read_pane_repository(&self) -> (res: bool)
        ensures
            res == layouts_read_pane_repository(self@),
    {
        proof {
            use_type_invariant(self);
        }
        let ghost pairs = layouts_view(self.layouts@);
        let ghost pred = |token: AgentSidebarToken| reads_pane_repository(token);
        let mut i: usize = 0;
        while i < self.layouts.len()
            invariant
                i <= self.layouts.len(),
                pairs == layouts_view(self.layouts@),
                keys_distinct(pairs),
                pred == (|token: AgentSidebarToken| reads_pane_repository(token)),
                forall|j: int| 0 <= j < i ==> !rows_show((#[trigger] pairs[j]).1, pred),
            decreases self.layouts.len() - i,
        {
            if any_token(&self.layouts[i].1, is_pane_repository_token) {
                proof {
                    lemma_pair_at(pairs, i as int);
                    assert(self@.contains_key(pairs[i as int].0));
                }
                return true;
            }
            i = i + 1;
        }
        proof {
            assert forall|agent: Seq<char>| #[trigger] self@.contains_key(agent) implies !rows_show(
                self@[agent],
                pred,
            ) by {
                let j = choose|j: int| key_at(pairs, agent, j);
                lemma_pair_at(pairs, j);
                assert(!rows_show(pairs[j].1, pred));
            }
        }
        false
    }
}

/// The layouts of agent rows: the common one, and those of single agents that
/// replace it.
#[derive(Debug)]
pub struct SidebarAgents {
    pub rows: Vec<Vec<AgentSidebarToken>>,
    pub rows_by_agent: AgentLayouts,
}

/// What a [`SidebarAgents`] stands for.
pub struct AgentsView {
    pub rows: Seq<Seq<AgentSidebarToken>>,
    pub rows_by_agent: AgentLayoutsView,
}

impl View for SidebarAgents {
    type V = AgentsView;

    open spec fn view(&self) -> AgentsView {
        AgentsView { rows: rows_view(self.rows@), rows_by_agent: self.rows_by_agent@ }
    }
}

/// A token of an agent row that is answered from the repository of the pane.
pub open spec fn reads_pane_repository(token: AgentSidebarToken) -> bool {
    token == AgentSidebarToken::Branch || token == AgentSidebarToken::Repo || token
        == AgentSidebarToken::Worktree
}

/// The layout of some single agent holds a token that is answered from the
/// repository of the pane.
pub open spec fn layouts_read_pane_repository(layouts: AgentLayoutsView) -> bool {
    exists|agent: Seq<char>| #[trigger]
        layouts.contains_key(agent) && rows_show(
            layouts[agent],
            |token: AgentSidebarToken| reads_pane_repository(token),
        )
}

/// Some agent layout, common or of a single agent, holds a token that is
/// answered from the repository of the pane.
pub open spec fn agents_read_pane_repository(agents: AgentsView) -> bool {
    ||| rows_show(agents.rows, |token: AgentSidebarToken| reads_pane_repository(token))
    ||| layouts_read_pane_repository(agents.rows_by_agent)
}

/// The Git status that the layouts display. The branch is wanted for a branch
/// token on a workspace row, and for every token of an agent row that is
/// answered from the repository of the pane.
pub open spec fn displayed(
    spaces: Seq<Seq<SpaceSidebarToken>>,
    agents: AgentsView,
) -> GitStatusRefreshDemand {
    GitStatusRefreshDemand {
        branch: rows_show(spaces, |token: SpaceSidebarToken| token == SpaceSidebarToken::Branch)
            || agents_read_pane_repository(agents),
        ahead_behind: rows_show(
            spaces,
            |token: SpaceSidebarToken| token == SpaceSidebarToken::GitStatus,
        ),
    }
}

/// Whether `wanted` answers yes for some token of a layout.
fn any_token<T: Copy, F: Fn(T) -> bool>(rows: &Vec<Vec<T>>, wanted: F) -> (res: bool)
    requires
        forall|token: T| call_requires(wanted, (token,)),
    ensures
        res ==> exists|row: int, place: int|
            0 <= row < rows@.len() && 0 <= place < rows_view(rows@)[row].len() && call_ensures(
                wanted,
                (#[trigger] rows_view(rows@)[row][place],),
                true,
            ),
        !res ==> forall|row: int, place: int|
            0 <= row < rows@.len() && 0 <= place < rows_view(rows@)[row].len() ==> call_ensures(
                wanted,
                (#[trigger] rows_view(rows@)[row][place],),
                false,
            ),
{
    let ghost all = rows_view(rows@);
    let mut row: usize = 0;
    while row < rows.len()
        invariant
            row <= rows.len(),
            all == rows_view(rows@),
            forall|token: T| call_requires(wanted, (token,)),
            forall|r: int, p: int|
                0 <= r < row && 0 <= p < all[r].len() ==> call_ensures(
                    wanted,
                    (#[trigger] all[r][p],),
                    false,
                ),
        decreases rows.len() - row,
    {
        let mut place: usize = 0;
        while place < rows[row].len()
            invariant
                row < rows.len(),
                place <= rows[row as int].len(),
                all == rows_view(rows@),
                forall|token: T| call_requires(wanted, (token,)),
                forall|p: int|
                    0 <= p < place ==> call_ensures(
                        wanted,
                        (#[trigger] all[row as int][p],),
                        false,
                    ),
            decreases rows[row as int].len() - place,
        {
            if wanted(rows[row][place]) {
                assert(call_ensures(wanted, (all[row as int][place as int],), true));
                return true;
            }
            place = place + 1;
        }
        row = row + 1;
    }
    false
}

fn is_branch_token(token: SpaceSidebarToken) -> (res: bool)
    ensures
        res == (token == SpaceSidebarToken::Branch),
{
    token == SpaceSidebarToken::Branch
}

fn is_git_status_token(token: SpaceSidebarToken) -> (res: bool)
    ensures
        res == (token == SpaceSidebarToken::GitStatus),
{
    token == SpaceSidebarToken::GitStatus
}

fn is_pane_repository_token(token: AgentSidebarToken) -> (res: bool)
    ensures
        res == reads_pane_repository(token),
{
    match token {
        AgentSidebarToken::Branch | AgentSidebarToken::Repo | AgentSidebarToken::Worktree => true,
        _ => false,
    }
}

/// The Git status that the layouts display.
pub(crate) fn displayed_git_status(
    spaces: &SidebarSpaces,
    agents: &SidebarAgents,
) -> (demand: GitStatusRefreshDemand)
    ensures
        demand == displayed(spaces@, agents@),
{
    let ahead_behind = any_token(&spaces.rows, is_git_status_token);
    let branch = any_token(&spaces.rows, is_branch_token) || any_token(
        &agents.rows,
        is_pane_repository_token,
    ) || agents.rows_by_agent.read_pane_repository();
    GitStatusRefreshDemand { branch, ahead_behind }
}

} // verus!
