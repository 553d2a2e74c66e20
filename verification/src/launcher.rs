//! Navigation state of the launcher window: which search result boxes show
//! which entries, what is selected, and what the keys and pointer do.
use std::rc::Rc;
use vstd::prelude::*;
use vstd::string::*;

use crate::desktop_entry::XdgDesktopEntry;
use crate::search::{
    is_ranking,
    refetch_results,
    search_candidates,
    search_results_for,
    SearchContext,
    SearchResult,
};

verus! {

/// Number of result boxes shown below the search bar.
pub const RESULT_ENTRY_COUNT: usize = 6;

/// Whether the launcher window is up.
#[derive(PartialEq, Eq, Structural, Clone, Copy, Debug)]
pub enum State {
    NotStarted,
    Visible,
    Hidden,
}

/// What one result box shows: its place in the container, the entry it
/// stands for, and the place of that entry in the search result.
#[derive(PartialEq, Eq, Structural, Clone, Copy, Debug)]
pub struct SearchResultBoxData {
    pub idx_in_container: usize,
    pub idx_in_xdg_entries_vector: usize,
    pub idx_in_search_result_vector: usize,
}

impl SearchResultBoxData {
    /// A box at place zero showing the first entry.
    pub fn new() -> (data: Self)
        ensures
            data == (SearchResultBoxData {
                idx_in_container: 0,
                idx_in_xdg_entries_vector: 0,
                idx_in_search_result_vector: 0,
            }),
    {
        SearchResultBoxData {
            idx_in_container: 0,
            idx_in_xdg_entries_vector: 0,
            idx_in_search_result_vector: 0,
        }
    }

    /// A box at place `idx` of the container.
    pub fn from(idx: usize) -> (data: Self)
        ensures
            data == (SearchResultBoxData {
                idx_in_container: idx,
                idx_in_xdg_entries_vector: 0,
                idx_in_search_result_vector: 0,
            }),
    {
        SearchResultBoxData {
            idx_in_container: idx,
            idx_in_xdg_entries_vector: 0,
            idx_in_search_result_vector: 0,
        }
    }

    pub fn set_idx_in_xdg_entries_vector(&mut self, idx: usize)
        ensures
            *final(self) == (SearchResultBoxData { idx_in_xdg_entries_vector: idx, ..*old(self) }),
    {
        self.idx_in_xdg_entries_vector = idx;
    }

    pub fn set_idx_in_search_result_vector(&mut self, idx: usize)
        ensures
            *final(self) == (SearchResultBoxData { idx_in_search_result_vector: idx, ..*old(self) }),
    {
        self.idx_in_search_result_vector = idx;
    }
}

/// The application that a launch starts.
#[derive(PartialEq, Eq, Structural, Clone, Copy, Debug)]
pub enum LaunchTarget {
    /// An entry of the custom launchers (the screenshot tool).
    CustomLauncher(usize),
    /// An entry of the desktop files.
    DesktopEntry(usize),
}

/// Position of the results scroll bar: the result shown in the first box,
/// how many results there are, and how many fit on a page.
#[derive(PartialEq, Eq, Structural, Clone, Copy, Debug)]
pub struct ScrollbarPosition {
    pub top: usize,
    pub result_count: usize,
    pub per_page: usize,
}

/// What pressing Enter does.
#[derive(PartialEq, Eq, Structural, Clone, Copy, Debug)]
pub enum EnterKeyAction {
    /// Nothing happens.
    Nothing,
    /// All applications are listed; the first `usize` boxes are filled.
    ShowAllApplications(usize),
    /// The application is started and the window hidden.
    Launch(LaunchTarget),
    /// The first result box takes the focus.
    FocusFirstResult,
}

/// What activating the application does to the window.
#[derive(PartialEq, Eq, Structural, Clone, Copy, Debug)]
pub enum ActivateAction {
    Hide,
    Show,
}

/// Number of boxes that show results when the page starts at result `start`.
pub open spec fn shown_count(result_count: int, start: int) -> int {
    if start >= result_count {
        0
    } else if result_count - start < RESULT_ENTRY_COUNT {
        result_count - start
    } else {
        RESULT_ENTRY_COUNT as int
    }
}

/// The state of the launcher that is not a widget.
pub struct Launcher {
    pub state: State,
    pub selected_search_idx: Option<isize>,
    pub user_desktop_files: Option<Rc<Vec<XdgDesktopEntry>>>,
    pub search_context: SearchContext,
    pub custom_launchers: Option<Rc<Vec<XdgDesktopEntry>>>,
    pub hovered_idx: usize,
    pub current_monitor: Option<(i32, i32)>,
    pub search_results_cache: SearchResult,
    pub result_boxes: Vec<SearchResultBoxData>,
    pub hovering_suppressed: bool,
}

impl Launcher {
    /// The result boxes are `RESULT_ENTRY_COUNT` boxes, each knowing its place.
    pub open spec fn wf(&self) -> bool {
        &&& self.result_boxes@.len() == RESULT_ENTRY_COUNT
        &&& forall|i: int|
            0 <= i < RESULT_ENTRY_COUNT ==> (#[trigger] self.result_boxes@[i]).idx_in_container
                == i
    }

    /// Every cached result names one of the desktop files.
    pub open spec fn results_displayable(&self) -> bool {
        &&& self.user_desktop_files is Some
        &&& forall|i: int|
            0 <= i < self.search_results_cache@.len() ==> (#[trigger] self.search_results_cache@[i])
                < self.user_desktop_files->0@.len()
    }

    /// The desktop files are the ones the search runs over.
    pub open spec fn files_shared(&self) -> bool {
        &&& self.user_desktop_files is Some
        &&& self.user_desktop_files->0@ == self.search_context.user_desktop_files@
    }

    /// What `launch_selected_application` starts, when it can start anything.
    pub open spec fn launch_target(&self) -> Option<LaunchTarget> {
        match self.selected_search_idx {
            Some(-1) => if self.custom_launchers is Some && self.custom_launchers->0@.len() > 0 {
                Some(LaunchTarget::CustomLauncher(0))
            } else {
                None
            },
            _ => {
                let box_idx: int = match self.selected_search_idx {
                    Some(i) => i as int,
                    None => 0,
                };
                if 0 <= box_idx < self.result_boxes@.len() && self.user_desktop_files is Some {
                    let d = self.result_boxes@[box_idx].idx_in_xdg_entries_vector;
                    if d < self.user_desktop_files->0@.len() {
                        Some(LaunchTarget::DesktopEntry(d as usize))
                    } else {
                        None
                    }
                } else {
                    None
                }
            },
        }
    }

    /// A launcher that has not started: nothing loaded, nothing selected.
    pub fn uninitialized() -> (launcher: Self)
        ensures
            launcher.wf(),
            launcher.state == State::NotStarted,
            launcher.selected_search_idx is None,
            launcher.user_desktop_files is None,
            launcher.custom_launchers is None,
            launcher.search_context.user_desktop_files@.len() == 0,
            launcher.search_context.result_cache@.len() == 0,
            launcher.hovered_idx == 0,
            launcher.current_monitor is None,
            launcher.search_results_cache@.len() == 0,
            !launcher.hovering_suppressed,
            forall|i: int|
                0 <= i < RESULT_ENTRY_COUNT ==> #[trigger] launcher.result_boxes@[i] == (
                SearchResultBoxData {
                    idx_in_container: i as usize,
                    idx_in_xdg_entries_vector: 0,
                    idx_in_search_result_vector: 0,
                }),
    {
        let mut result_boxes: Vec<SearchResultBoxData> = Vec::new();
        let mut i: usize = 0;
        while i < RESULT_ENTRY_COUNT
            invariant
                i <= RESULT_ENTRY_COUNT,
                result_boxes@.len() == i,
                forall|j: int|
                    0 <= j < i ==> #[trigger] result_boxes@[j] == (SearchResultBoxData {
                        idx_in_container: j as usize,
                        idx_in_xdg_entries_vector: 0,
                        idx_in_search_result_vector: 0,
                    }),
            decreases RESULT_ENTRY_COUNT - i,
        {
            result_boxes.push(SearchResultBoxData::from(i));
            i += 1;
        }
        Launcher {
            state: State::NotStarted,
            selected_search_idx: None,
            user_desktop_files: None,
            search_context: SearchContext::default(),
            custom_launchers: None,
            hovered_idx: 0,
            current_monitor: None,
            search_results_cache: Vec::new(),
            result_boxes,
            hovering_suppressed: false,
        }
    }

    /// Pointer motion no longer moves the selection.
    pub fn disable_motion_events(&mut self)
        ensures
            *final(self) == (Launcher { hovering_suppressed: true, ..*old(self) }),
    {
        self.hovering_suppressed = true;
    }

    /// Pointer motion moves the selection again.
    pub fn enable_motion_events(&mut self)
        ensures
            *final(self) == (Launcher { hovering_suppressed: false, ..*old(self) }),
    {
        self.hovering_suppressed = false;
    }

    /// Replaces the cached search result.
    pub fn set_search_results_cache(&mut self, search_results: SearchResult)
        ensures
            *final(self) == (Launcher { search_results_cache: search_results, ..*old(self) }),
    {
        self.search_results_cache = search_results;
    }

    /// The application that the current selection stands for: the first
    /// custom launcher when the screenshot button is selected, otherwise the
    /// entry of the selected result box (the first box when none is
    /// selected); `None` when that launcher or entry does not exist.
    pub fn launch_selected_application(&self) -> (target: Option<LaunchTarget>)
        ensures
            target == self.launch_target(),
            forall|i: int|
                0 <= i < RESULT_ENTRY_COUNT && i < self.result_boxes@.len()
                    && self.selected_search_idx == Some(i as isize) && self.user_desktop_files is Some
                    && (#[trigger] self.result_boxes@[i]).idx_in_xdg_entries_vector
                    < self.user_desktop_files->0@.len() ==> target == Some(
                    LaunchTarget::DesktopEntry(self.result_boxes@[i].idx_in_xdg_entries_vector),
                ),
    {
        let box_idx: usize = match self.selected_search_idx {
            Some(-1) => {
                return match &self.custom_launchers {
                    Some(custom) => {
                        let custom: &Vec<XdgDesktopEntry> = &**custom;
                        if custom.len() > 0 {
                            Some(LaunchTarget::CustomLauncher(0))
                        } else {
                            None
                        }
                    },
                    None => None,
                };
            },
            Some(i) => {
                if i < 0 || i as usize >= self.result_boxes.len() {
                    return None;
                }
                i as usize
            },
            None => {
                if self.result_boxes.len() == 0 {
                    return None;
                }
                0
            },
        };
        match &self.user_desktop_files {
            Some(files) => {
                let files: &Vec<XdgDesktopEntry> = &**files;
                let d = self.result_boxes[box_idx].idx_in_xdg_entries_vector;
                if d < files.len() {
                    Some(LaunchTarget::DesktopEntry(d))
                } else {
                    None
                }
            },
            None => None,
        }
    }

    /// Number of boxes that show results on the current page, which starts
    /// at the result shown in the first box.
    pub fn shown_results(&self) -> (n: usize)
        requires
            self.wf(),
        ensures
            n == shown_count(
                self.search_results_cache@.len() as int,
                self.result_boxes@[0].idx_in_search_result_vector as int,
            ),
    {
        let count = self.search_results_cache.len();
        let top = self.result_boxes[0].idx_in_search_result_vector;
        if top >= count {
            0
        } else if count - top < RESULT_ENTRY_COUNT {
            count - top
        } else {
            RESULT_ENTRY_COUNT
        }
    }

    /// Makes result box `container_idx` show desktop entry `desktop_idx`,
    /// the `search_result_idx`th search result, and returns the entry's
    /// display name for its label.
    pub fn set_search_result_box(
        &mut self,
        desktop_idx: usize,
        container_idx: usize,
        search_result_idx: usize,
    ) -> (label: String)
        requires
            old(self).user_desktop_files is Some,
            desktop_idx < old(self).user_desktop_files->0@.len(),
            container_idx < old(self).result_boxes@.len(),
        ensures
            label@ == old(self).user_desktop_files->0@[desktop_idx as int].display_name@,
            final(self).result_boxes@ == old(self).result_boxes@.update(
                container_idx as int,
                SearchResultBoxData {
                    idx_in_xdg_entries_vector: desktop_idx,
                    idx_in_search_result_vector: search_result_idx,
                    ..old(self).result_boxes@[container_idx as int]
                },
            ),
            *final(self) == (Launcher { result_boxes: final(self).result_boxes, ..*old(self) }),
    {
        let label = match &self.user_desktop_files {
            Some(files) => {
                let files: &Vec<XdgDesktopEntry> = &**files;
                files[desktop_idx].display_name.clone()
            },
            None => String::new(),
        };
        let mut data = self.result_boxes[container_idx];
        data.set_idx_in_xdg_entries_vector(desktop_idx);
        data.set_idx_in_search_result_vector(search_result_idx);
        self.result_boxes.set(container_idx, data);
        label
    }

    /// Where the results scroll bar stands.
    pub fn adjust_results_scrollbar(&self) -> (position: ScrollbarPosition)
        requires
            self.wf(),
        ensures
            position == scrollbar_of(*self),
    {
        let search_result_count = self.search_results_cache.len();
        let per_page = if search_result_count < RESULT_ENTRY_COUNT {
            search_result_count
        } else {
            RESULT_ENTRY_COUNT
        };
        ScrollbarPosition {
            top: self.result_boxes[0].idx_in_search_result_vector,
            result_count: search_result_count,
            per_page,
        }
    }
}

/// The scroll bar position for `l`: the result in the first box, the number
/// of results, and the number of results on a page.
pub open spec fn scrollbar_of(l: Launcher) -> ScrollbarPosition {
    ScrollbarPosition {
        top: l.result_boxes@[0].idx_in_search_result_vector,
        result_count: l.search_results_cache@.len() as usize,
        per_page: if l.search_results_cache@.len() < RESULT_ENTRY_COUNT {
            l.search_results_cache@.len() as usize
        } else {
            RESULT_ENTRY_COUNT
        },
    }
}

/// `new` shows the page of results of `old` that starts at result `start`
/// in its first `n` boxes and leaves everything else as it was.
pub open spec fn displays_page(old: Launcher, new: Launcher, start: int, n: int) -> bool {
    &&& n == shown_count(old.search_results_cache@.len() as int, start)
    &&& new.result_boxes@.len() == old.result_boxes@.len()
    &&& forall|k: int|
        0 <= k < n ==> #[trigger] new.result_boxes@[k] == (SearchResultBoxData {
            idx_in_xdg_entries_vector: old.search_results_cache@[start + k],
            idx_in_search_result_vector: (start + k) as usize,
            ..old.result_boxes@[k]
        })
    &&& forall|k: int|
        n <= k < old.result_boxes@.len() ==> #[trigger] new.result_boxes@[k] == old.result_boxes@[k]
    &&& new == (Launcher { result_boxes: new.result_boxes, ..old })
}

/// Fills the result boxes with the cached results from result `start` on
/// (the first result when `None`) and returns how many boxes were filled.
pub fn display_search_results(launcher: &mut Launcher, start: Option<usize>) -> (shown: usize)
    requires
        old(launcher).wf(),
        old(launcher).results_displayable(),
    ensures
        displays_page(
            *old(launcher),
            *final(launcher),
            match start {
                Some(s) => s as int,
                None => 0,
            },
            shown as int,
        ),
        final(launcher).wf(),
        final(launcher).results_displayable(),
{
    let first = match start {
        Some(s) => s,
        None => 0,
    };
    let len = launcher.search_results_cache.len();
    let ghost orig = *launcher;
    let mut counter: usize = 0;
    while counter < RESULT_ENTRY_COUNT && first < len && counter < len - first
        invariant
            len == orig.search_results_cache@.len(),
            orig.wf(),
            orig.results_displayable(),
            counter <= RESULT_ENTRY_COUNT,
            first < len ==> counter <= len - first,
            first >= len ==> counter == 0,
            launcher.result_boxes@.len() == orig.result_boxes@.len(),
            forall|k: int|
                0 <= k < counter ==> #[trigger] launcher.result_boxes@[k] == (SearchResultBoxData {
                    idx_in_xdg_entries_vector: orig.search_results_cache@[first + k],
                    idx_in_search_result_vector: (first + k) as usize,
                    ..orig.result_boxes@[k]
                }),
            forall|k: int|
                counter <= k < orig.result_boxes@.len() ==> #[trigger] launcher.result_boxes@[k]
                    == orig.result_boxes@[k],
            *launcher == (Launcher { result_boxes: launcher.result_boxes, ..orig }),
        decreases RESULT_ENTRY_COUNT - counter,
    {
        let idx = first + counter;
        let desktop_idx = launcher.search_results_cache[idx];
        let _ = launcher.set_search_result_box(desktop_idx, counter, idx);
        counter += 1;
    }
    proof {
        let new = *launcher;
        assert forall|i: int| 0 <= i < RESULT_ENTRY_COUNT implies (#[trigger] new.result_boxes@[i]).idx_in_container == i by {
            assert(orig.result_boxes@[i].idx_in_container == i);
        }
    }
    counter
}

/// Launching starts the entry that the selected result box shows: with box
/// `i` selected (the first box when none is), the target is the desktop
/// entry the box displays, whatever its place in the result list; with the
/// screenshot button selected it is the first custom launcher.
pub proof fn lemma_launch_shown_entry(l: Launcher, i: int)
    requires
        0 <= i < RESULT_ENTRY_COUNT,
        i < l.result_boxes@.len(),
        l.selected_search_idx == Some(i as isize) || (i == 0 && l.selected_search_idx is None),
        l.user_desktop_files is Some,
    ensures
        l.result_boxes@[i].idx_in_xdg_entries_vector < l.user_desktop_files->0@.len()
            ==> l.launch_target() == Some(
            LaunchTarget::DesktopEntry(l.result_boxes@[i].idx_in_xdg_entries_vector),
        ),
        l.result_boxes@[i].idx_in_xdg_entries_vector >= l.user_desktop_files->0@.len()
            ==> l.launch_target() is None,
{
}

/// After a page of results is shown, launching from box `i` starts the
/// entry of result `start + i` of the cached search result.
pub proof fn lemma_launch_after_display(o: Launcher, n: Launcher, start: int, shown: int, i: int)
    requires
        o.wf(),
        o.results_displayable(),
        displays_page(o, n, start, shown),
        0 <= start,
        0 <= i < shown,
        n.selected_search_idx == Some(i as isize),
    ensures
        n.launch_target() == Some(
            LaunchTarget::DesktopEntry(o.search_results_cache@[start + i]),
        ),
{
    assert(0 <= start + i < o.search_results_cache@.len());
    assert(i < RESULT_ENTRY_COUNT);
    assert(n.result_boxes@[i].idx_in_xdg_entries_vector == o.search_results_cache@[start + i]);
    assert(o.search_results_cache@[start + i] < o.user_desktop_files->0@.len());
}

/// With the screenshot button selected, the first custom launcher starts.
pub proof fn lemma_launch_screenshot(l: Launcher)
    requires
        l.selected_search_idx == Some(-1isize),
        l.custom_launchers is Some,
        l.custom_launchers->0@.len() > 0,
    ensures
        l.launch_target() == Some(LaunchTarget::CustomLauncher(0)),
{
}

/// Every box of `l` shows its result of the page that starts at result `t`.
pub open spec fn shows_full_page(l: Launcher, t: int) -> bool {
    forall|k: int|
        0 <= k < RESULT_ENTRY_COUNT ==> #[trigger] l.result_boxes@[k] == (SearchResultBoxData {
            idx_in_container: k as usize,
            idx_in_xdg_entries_vector: l.search_results_cache@[t + k],
            idx_in_search_result_vector: (t + k) as usize,
        })
}

/// Moving the page down by one result from the last box, then up by one
/// from the first box, shows the page it started from again.
pub proof fn lemma_scroll_down_then_up(o: Launcher, down: Launcher, up: Launcher, t: int)
    requires
        o.wf(),
        0 <= t,
        shows_full_page(o, t),
        displays_page(o, down, t + 1, RESULT_ENTRY_COUNT as int),
        displays_page(
            Launcher { selected_search_idx: Some(0isize), ..down },
            up,
            t,
            shown_count(down.search_results_cache@.len() as int, t),
        ),
    ensures
        up.result_boxes@ == o.result_boxes@,
        shows_full_page(up, t),
{
    let len = o.search_results_cache@.len() as int;
    assert(shown_count(len, t) == RESULT_ENTRY_COUNT);
    let mid = Launcher { selected_search_idx: Some(0isize), ..down };
    assert forall|k: int| 0 <= k < RESULT_ENTRY_COUNT implies #[trigger] up.result_boxes@[k]
        == o.result_boxes@[k] by {
        assert(mid.result_boxes@[k] == down.result_boxes@[k]);
        assert(o.result_boxes@[k].idx_in_container == k);
    }
    assert(up.result_boxes@ =~= o.result_boxes@);
}

/// `new` holds a fresh search for `text` in both the search context and the
/// launcher's cache, shown from the first result in its first `n` boxes.
pub open spec fn searched_and_displayed(old: Launcher, new: Launcher, text: Seq<char>, n: int) -> bool {
    &&& new.search_context.user_desktop_files == old.search_context.user_desktop_files
    &&& new.search_context.result_cache@ == new.search_results_cache@
    &&& search_results_for(
        new.search_results_cache@,
        old.search_context.user_desktop_files@,
        text,
    )
    &&& displays_page(
        Launcher {
            search_context: new.search_context,
            search_results_cache: new.search_results_cache,
            hovering_suppressed: new.hovering_suppressed,
            ..old
        },
        new,
        0,
        n,
    )
}

/// Searches for `text`, caches the result and shows its first page.
fn search_and_display(launcher: &mut Launcher, text: String) -> (shown: usize)
    requires
        old(launcher).wf(),
        old(launcher).files_shared(),
    ensures
        searched_and_displayed(*old(launcher), *final(launcher), text@, shown as int),
        final(launcher).hovering_suppressed == old(launcher).hovering_suppressed,
        final(launcher).wf(),
        final(launcher).files_shared(),
{
    let results = refetch_results(&mut launcher.search_context, text);
    proof {
        crate::search::lemma_search_results_in_range(
            results@,
            launcher.search_context.user_desktop_files@,
            text@,
        );
    }
    launcher.set_search_results_cache(results);
    let ghost mid = *launcher;
    let shown = display_search_results(launcher, None);
    assert(mid == (Launcher {
        search_context: launcher.search_context,
        search_results_cache: launcher.search_results_cache,
        hovering_suppressed: launcher.hovering_suppressed,
        ..*old(launcher)
    }));
    shown
}

/// The window is hidden.
pub fn hide_window(launcher: &mut Launcher)
    ensures
        *final(launcher) == (Launcher { state: State::Hidden, ..*old(launcher) }),
{
    launcher.state = State::Hidden;
}

/// What Enter does: with the results hidden and the search bar empty, every
/// application is listed; with the results hidden otherwise, nothing; with
/// the results shown, the selected application is started and the window
/// hidden, or, when nothing is selected, the first result takes the focus.
pub fn handle_enter_key(launcher: &mut Launcher, results_visible: bool, search_text_empty: bool) -> (action: EnterKeyAction)
    requires
        old(launcher).wf(),
        old(launcher).files_shared(),
        results_visible && old(launcher).selected_search_idx is Some ==> old(launcher).launch_target() is Some,
    ensures
        final(launcher).wf(),
        !results_visible && !search_text_empty ==> action == EnterKeyAction::Nothing
            && *final(launcher) == *old(launcher),
        !results_visible && search_text_empty ==> (action matches EnterKeyAction::ShowAllApplications(n)
            && searched_and_displayed(*old(launcher), *final(launcher), seq!['\n'], n as int)),
        results_visible && old(launcher).selected_search_idx is Some ==> action
            == EnterKeyAction::Launch(old(launcher).launch_target()->0) && *final(launcher) == (
        Launcher { state: State::Hidden, ..*old(launcher) }),
        results_visible && old(launcher).selected_search_idx is None ==> action
            == EnterKeyAction::FocusFirstResult && *final(launcher) == *old(launcher),
{
    if !results_visible {
        if search_text_empty {
            let all = String::from_str("\n");
            proof {
                reveal_strlit("\n");
                assert(all@ =~= seq!['\n']);
            }
            let shown = search_and_display(launcher, all);
            return EnterKeyAction::ShowAllApplications(shown);
        }
        return EnterKeyAction::Nothing;
    }
    if launcher.selected_search_idx.is_some() {
        let target = launcher.launch_selected_application();
        hide_window(launcher);
        match target {
            Some(t) => EnterKeyAction::Launch(t),
            None => EnterKeyAction::Nothing,
        }
    } else {
        EnterKeyAction::FocusFirstResult
    }
}

/// Down arrow: on the last box, the next page is shown when there is a full
/// one after the current first result (`None`, and nothing changes, when
/// there is not); the scroll bar position to show is returned.
pub fn scroll_search_results_down(launcher: &mut Launcher) -> (position: Option<ScrollbarPosition>)
    requires
        old(launcher).wf(),
        old(launcher).results_displayable(),
    ensures
        final(launcher).wf(),
        final(launcher).results_displayable(),
        ({
            let o = *old(launcher);
            let next_top = o.result_boxes@[1].idx_in_search_result_vector as int;
            let end = o.search_results_cache@.len() as int;
            if o.selected_search_idx == Some((RESULT_ENTRY_COUNT - 1) as isize) {
                if end < RESULT_ENTRY_COUNT || next_top > end - RESULT_ENTRY_COUNT {
                    position is None && *final(launcher) == o
                } else {
                    displays_page(o, *final(launcher), next_top, RESULT_ENTRY_COUNT as int)
                        && position == Some(scrollbar_of(*final(launcher)))
                }
            } else {
                position == Some(scrollbar_of(o)) && *final(launcher) == o
            }
        }),
{
    if launcher.selected_search_idx == Some((RESULT_ENTRY_COUNT - 1) as isize) {
        let next_page_top = launcher.result_boxes[1].idx_in_search_result_vector;
        let end = launcher.search_results_cache.len();
        if end < RESULT_ENTRY_COUNT || next_page_top > end - RESULT_ENTRY_COUNT {
            return None;
        }
        let _ = display_search_results(launcher, Some(next_page_top));
    }
    Some(launcher.adjust_results_scrollbar())
}

/// Up arrow: on the first box, the page is moved up by one result when the
/// first box does not already show the first result; returns whether it moved.
pub fn scroll_search_results_up(launcher: &mut Launcher) -> (moved: bool)
    requires
        old(launcher).wf(),
        old(launcher).results_displayable(),
    ensures
        final(launcher).wf(),
        final(launcher).results_displayable(),
        ({
            let o = *old(launcher);
            let top = o.result_boxes@[0].idx_in_search_result_vector as int;
            if o.selected_search_idx == Some(0isize) && top != 0 {
                moved && displays_page(
                    o,
                    *final(launcher),
                    top - 1,
                    shown_count(o.search_results_cache@.len() as int, top - 1),
                )
            } else {
                !moved && *final(launcher) == o
            }
        }),
{
    if launcher.selected_search_idx == Some(0isize) {
        let prev_search_result_idx = launcher.result_boxes[0].idx_in_search_result_vector;
        if prev_search_result_idx == 0 {
            return false;
        }
        let _ = display_search_results(launcher, Some(prev_search_result_idx - 1));
        return true;
    }
    false
}

/// What the pointer entering result box `idx` does: when pointer motion is
/// suppressed it is only re-enabled; otherwise the box is selected and
/// takes the focus.
pub open spec fn hovered(l: Launcher, idx: usize) -> (bool, Launcher) {
    if l.hovering_suppressed {
        (false, Launcher { hovering_suppressed: false, ..l })
    } else {
        (true, Launcher { hovered_idx: idx, selected_search_idx: Some(idx as isize), ..l })
    }
}

/// While the user types, a pointer resting on a result box does not take
/// the selection: after a search the first pointer entry changes nothing
/// but re-enabling pointer motion, and the next one selects its box.
pub proof fn lemma_typing_keeps_selection(l: Launcher, first: usize, second: usize)
    requires
        l.hovering_suppressed,
        second < RESULT_ENTRY_COUNT,
    ensures
        !hovered(l, first).0,
        hovered(l, first).1.selected_search_idx == l.selected_search_idx,
        hovered(l, first).1 == (Launcher { hovering_suppressed: false, ..l }),
        hovered(hovered(l, first).1, second).0,
        hovered(hovered(l, first).1, second).1.selected_search_idx == Some(second as isize),
{
}

/// The pointer entered result box `hovered_idx`: it is selected and should
/// take the focus (returns `true`), unless pointer motion was suppressed, in
/// which case motion is re-enabled and nothing else happens.
pub fn handle_result_box_hovered(launcher: &mut Launcher, hovered_idx: usize) -> (focus: bool)
    requires
        hovered_idx < RESULT_ENTRY_COUNT,
    ensures
        (focus, *final(launcher)) == hovered(*old(launcher), hovered_idx),
{
    if launcher.hovering_suppressed {
        launcher.enable_motion_events();
        return false;
    }
    launcher.hovered_idx = hovered_idx;
    launcher.selected_search_idx = Some(hovered_idx as isize);
    true
}

/// What activating the application does: a visible window is hidden and
/// forgets its monitor; any other is shown on `monitor`.
pub open spec fn activated(l: Launcher, monitor: (i32, i32)) -> (ActivateAction, Launcher) {
    if l.state == State::Visible {
        (ActivateAction::Hide, Launcher { state: State::Hidden, current_monitor: None, ..l })
    } else {
        (ActivateAction::Show, Launcher { state: State::Visible, current_monitor: Some(monitor), ..l })
    }
}

/// Activating the application twice brings the window back to where it was
/// (shown or hidden), one action hiding and the other showing it; nothing
/// but the window state and its monitor changes.
pub proof fn lemma_activate_twice(l: Launcher, first: (i32, i32), second: (i32, i32))
    requires
        l.state != State::NotStarted,
    ensures
        activated(activated(l, first).1, second).1.state == l.state,
        activated(activated(l, first).1, second).0 != activated(l, first).0,
        activated(activated(l, first).1, second).1 == (Launcher {
            current_monitor: activated(activated(l, first).1, second).1.current_monitor,
            ..l
        }),
{
}

/// A window that is not shown is shown on the monitor it is activated on,
/// and that monitor is recorded whatever was recorded before; a shown
/// window is hidden and keeps no monitor. Hiding and showing again records
/// the monitor of the second activation.
pub proof fn lemma_activate_records_monitor(l: Launcher, first: (i32, i32), second: (i32, i32))
    requires
        l.state != State::NotStarted,
    ensures
        l.state != State::Visible ==> activated(l, first).0 == ActivateAction::Show
            && activated(l, first).1.state == State::Visible
            && activated(l, first).1.current_monitor == Some(first),
        l.state == State::Visible ==> activated(l, first).0 == ActivateAction::Hide
            && activated(l, first).1.state == State::Hidden
            && activated(l, first).1.current_monitor is None,
        l.state == State::Visible ==> activated(activated(l, first).1, second).1.current_monitor
            == Some(second),
{
}

impl Launcher {
    /// The application was activated again: a visible window is hidden and
    /// forgets its monitor; a hidden one is shown on `monitor`.
    pub fn activate(&mut self, monitor: (i32, i32)) -> (action: ActivateAction)
        requires
            old(self).state != State::NotStarted,
        ensures
            (action, *final(self)) == activated(*old(self), monitor),
            old(self).state != State::Visible ==> action == ActivateAction::Show
                && final(self).state == State::Visible && final(self).current_monitor == Some(
                monitor,
            ),
            old(self).state == State::Visible ==> action == ActivateAction::Hide
                && final(self).state == State::Hidden && final(self).current_monitor is None,
    {
        match self.state {
            State::Visible => {
                self.current_monitor = None;
                self.state = State::Hidden;
                ActivateAction::Hide
            },
            _ => {
                self.current_monitor = Some(monitor);
                self.state = State::Visible;
                ActivateAction::Show
            },
        }
    }

    /// Result box `idx_in_container` took the focus: it is selected.
    pub fn result_box_focused(&mut self, idx_in_container: usize)
        requires
            idx_in_container <= isize::MAX,
        ensures
            *final(self) == (Launcher {
                selected_search_idx: Some(idx_in_container as isize),
                ..*old(self)
            }),
    {
        self.selected_search_idx = Some(idx_in_container as isize);
    }

    /// The search bar took the focus: no result is selected.
    pub fn search_bar_focused(&mut self)
        ensures
            *final(self) == (Launcher { selected_search_idx: None, ..*old(self) }),
    {
        self.selected_search_idx = None;
    }

    /// The screenshot button took the focus: it is selected.
    pub fn screenshot_button_focused(&mut self)
        ensures
            *final(self) == (Launcher { selected_search_idx: Some(-1isize), ..*old(self) }),
    {
        self.selected_search_idx = Some(-1);
    }

    /// The search text changed: the search runs again, its first page is
    /// shown and pointer motion stops stealing the selection until it moves
    /// again. Returns how many boxes show results.
    pub fn search_text_changed(&mut self, text: String) -> (shown: usize)
        requires
            old(self).wf(),
            old(self).files_shared(),
        ensures
            final(self).wf(),
            final(self).files_shared(),
            final(self).hovering_suppressed,
            searched_and_displayed(*old(self), *final(self), text@, shown as int),
    {
        self.disable_motion_events();
        search_and_display(self, text)
    }
}

} // verus!
