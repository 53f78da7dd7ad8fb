//! Choosing the one on-screen window that the runtime plays through.
use crate::text::{contains, has_substring};
use vstd::prelude::*;

verus! {

/// Constraints that the target window must meet; unset ones are not checked.
#[derive(Clone, Debug, Default, PartialEq, Eq)]
pub struct WindowSelector {
    pub window_id: Option<u32>,
    pub pid: Option<i32>,
    pub bundle_identifier: Option<String>,
    pub title_contains: Option<String>,
}

/// An on-screen window as the platform lists it.
#[derive(Clone, Debug, PartialEq, Eq)]
pub struct WindowInfo {
    pub window_id: u32,
    pub pid: i32,
    pub application_name: String,
    pub bundle_identifier: String,
    pub title: Option<String>,
}

/// What identifies the window once it has been chosen.
#[derive(Clone, Debug, PartialEq, Eq)]
pub struct TargetIdentity {
    pub window_id: u32,
    pub pid: i32,
    pub bundle_identifier: String,
}

/// Why a selector was refused.
#[derive(Clone, Copy, Debug, PartialEq, Eq, Structural)]
pub enum SelectorError {
    /// No constraint is set.
    NoConstraint,
    /// The bundle identifier is set but empty.
    EmptyBundleIdentifier,
    /// The title constraint is set but empty.
    EmptyTitle,
}

/// Why no single window could be chosen.
#[derive(Clone, Debug, PartialEq, Eq)]
pub enum AttachError {
    /// The selector itself is invalid.
    InvalidSelector(SelectorError),
    /// No listed window meets the selector.
    NoMatch,
    /// Several listed windows meet the selector; their positions in the list.
    Ambiguous(Vec<usize>),
}

/// The first check that `selector` fails, in the order in which they are made.
pub open spec fn selector_check(selector: WindowSelector) -> Result<(), SelectorError> {
    if selector.window_id is None && selector.pid is None && selector.bundle_identifier is None
        && selector.title_contains is None {
        Err(SelectorError::NoConstraint)
    } else if selector.bundle_identifier matches Some(b) && b@.len() == 0 {
        Err(SelectorError::EmptyBundleIdentifier)
    } else if selector.title_contains matches Some(t) && t@.len() == 0 {
        Err(SelectorError::EmptyTitle)
    } else {
        Ok(())
    }
}

/// `window` meets every constraint that `selector` sets.
pub open spec fn selector_matches(selector: WindowSelector, window: WindowInfo) -> bool {
    &&& selector.window_id matches Some(id) ==> window.window_id == id
    &&& selector.pid matches Some(pid) ==> window.pid == pid
    &&& selector.bundle_identifier matches Some(b) ==> window.bundle_identifier@ == b@
    &&& selector.title_contains matches Some(needle) ==> (window.title matches Some(title)
        && has_substring(title@, needle@))
}

/// `window` is the chosen target: same window, process and bundle.
pub open spec fn identifies(target: TargetIdentity, window: WindowInfo) -> bool {
    &&& window.window_id == target.window_id
    &&& window.pid == target.pid
    &&& window.bundle_identifier@ == target.bundle_identifier@
}

/// The positions of the windows of `windows` that meet `selector`, in list order.
pub open spec fn matching_positions(selector: WindowSelector, windows: Seq<WindowInfo>) -> Seq<usize>
    decreases windows.len(),
{
    if windows.len() == 0 {
        Seq::empty()
    } else {
        let before = matching_positions(selector, windows.drop_last());
        if selector_matches(selector, windows.last()) {
            before.push((windows.len() - 1) as usize)
        } else {
            before
        }
    }
}

impl WindowSelector {
    pub fn validate(&self) -> (r: Result<(), SelectorError>)
        ensures
            r == selector_check(*self),
    {
        if self.window_id.is_none() && self.pid.is_none() && self.bundle_identifier.is_none()
            && self.title_contains.is_none() {
            return Err(SelectorError::NoConstraint);
        }
        if let Some(bundle) = &self.bundle_identifier {
            if bundle.as_str().is_empty() {
                return Err(SelectorError::EmptyBundleIdentifier);
            }
        }
        if let Some(title) = &self.title_contains {
            if title.as_str().is_empty() {
                return Err(SelectorError::EmptyTitle);
            }
        }
        Ok(())
    }

    pub fn matches(&self, window: &WindowInfo) -> (r: bool)
        ensures
            r == selector_matches(*self, *window),
    {
        if let Some(id) = self.window_id {
            if window.window_id != id {
                return false;
            }
        }
        if let Some(pid) = self.pid {
            if window.pid != pid {
                return false;
            }
        }
        if let Some(bundle) = &self.bundle_identifier {
            if !(window.bundle_identifier == *bundle) {
                return false;
            }
        }
        if let Some(needle) = &self.title_contains {
            match &window.title {
                Some(title) => {
                    if !contains(title.as_str(), needle.as_str()) {
                        return false;
                    }
                },
                None => {
                    return false;
                },
            }
        }
        true
    }
}

impl TargetIdentity {
    pub fn matches(&self, window: &WindowInfo) -> (r: bool)
        ensures
            r == identifies(*self, *window),
    {
        window.window_id == self.window_id && window.pid == self.pid && window.bundle_identifier
            == self.bundle_identifier
    }
}

/// The positions of the listed windows that meet `selector`, in list order.
pub fn matching_windows(selector: &WindowSelector, windows: &Vec<WindowInfo>) -> (r: Vec<usize>)
    ensures
        r@ == matching_positions(*selector, windows@),
{
    let mut found: Vec<usize> = Vec::new();
    let mut i: usize = 0;
    while i < windows.len()
        invariant
            i <= windows@.len(),
            found@ == matching_positions(*selector, windows@.take(i as int)),
        decreases windows@.len() - i,
    {
        assert(windows@.take(i + 1).drop_last() =~= windows@.take(i as int));
        if selector.matches(&windows[i]) {
            found.push(i);
        }
        i = i + 1;
    }
    assert(windows@.take(windows@.len() as int) =~= windows@);
    found
}

/// Chooses the window to play through: the selector must be valid and meet exactly
/// one listed window.
pub fn select_target(selector: &WindowSelector, windows: &Vec<WindowInfo>) -> (r: Result<
    TargetIdentity,
    AttachError,
>)
    ensures
        selector_check(*selector) matches Err(e) ==> r == Err::<TargetIdentity, AttachError>(
            AttachError::InvalidSelector(e),
        ),
        selector_check(*selector) is Ok ==> {
            let found = matching_positions(*selector, windows@);
            &&& found.len() == 0 ==> r == Err::<TargetIdentity, AttachError>(AttachError::NoMatch)
            &&& found.len() == 1 ==> (r matches Ok(t) && identifies(t, windows@[found[0] as int]))
            &&& found.len() > 1 ==> (r matches Err(AttachError::Ambiguous(positions))
                && positions@ == found)
        },
{
    match selector.validate() {
        Err(e) => return Err(AttachError::InvalidSelector(e)),
        Ok(()) => {},
    }
    let found = matching_windows(selector, windows);
    if found.len() == 0 {
        return Err(AttachError::NoMatch);
    }
    if found.len() > 1 {
        return Err(AttachError::Ambiguous(found));
    }
    let listed = windows.len();
    proof {
        assert(windows@.len() == listed);
        lemma_positions_in_range(*selector, windows@);
    }
    let window = &windows[found[0]];
    Ok(
        TargetIdentity {
            window_id: window.window_id,
            pid: window.pid,
            bundle_identifier: window.bundle_identifier.clone(),
        },
    )
}

/// `matching_positions` lists exactly the windows that meet the selector: every
/// position it holds is a position of the list whose window meets the selector, and
/// every such position is in it.
pub proof fn lemma_positions_in_range(selector: WindowSelector, windows: Seq<WindowInfo>)
    requires
        windows.len() <= usize::MAX,
    ensures
        forall|k: int|
            0 <= k < matching_positions(selector, windows).len() ==> {
                let p = #[trigger] matching_positions(selector, windows)[k];
                &&& p < windows.len()
                &&& selector_matches(selector, windows[p as int])
            },
        forall|i: int|
            0 <= i < windows.len() && #[trigger] selector_matches(selector, windows[i])
                ==> matching_positions(selector, windows).contains(i as usize),
    decreases windows.len(),
{
    if windows.len() > 0 {
        let rest = windows.drop_last();
        lemma_positions_in_range(selector, rest);
        let before = matching_positions(selector, rest);
        let all = matching_positions(selector, windows);
        if selector_matches(selector, windows.last()) {
            assert(all == before.push((windows.len() - 1) as usize));
        } else {
            assert(all == before);
        }
        assert forall|k: int| 0 <= k < all.len() implies {
            let p = #[trigger] all[k];
            &&& p < windows.len()
            &&& selector_matches(selector, windows[p as int])
        } by {
            if k < before.len() {
                let p = before[k];
                assert(all[k] == p);
                assert(p < rest.len());
                assert(windows[p as int] == rest[p as int]);
            } else {
                assert(all[k] == (windows.len() - 1) as usize);
                assert(windows[windows.len() - 1] == windows.last());
            }
        }
        assert forall|i: int|
            0 <= i < windows.len() && #[trigger] selector_matches(
                selector,
                windows[i],
            ) implies all.contains(i as usize) by {
            if i < windows.len() - 1 {
                assert(rest[i] == windows[i]);
                let k = choose|k: int| 0 <= k < before.len() && before[k] == i as usize;
                assert(all[k] == before[k]);
            } else {
                assert(windows[i] == windows.last());
                assert(all[all.len() - 1] == i as usize);
            }
        }
    }
}

/// A window that fails any constraint that a selector sets is not matched: another
/// window id, another process, another bundle, or a title that does not contain the
/// wanted text (or no title at all).
pub proof fn lemma_unmet_constraint_excludes_window(selector: WindowSelector, window: WindowInfo)
    ensures
        selector.window_id matches Some(id) && window.window_id != id ==> !selector_matches(
            selector,
            window,
        ),
        selector.pid matches Some(pid) && window.pid != pid ==> !selector_matches(selector, window),
        selector.bundle_identifier matches Some(b) && window.bundle_identifier@ != b@
            ==> !selector_matches(selector, window),
        selector.title_contains matches Some(needle) && !(window.title matches Some(t)
            && exists|i: int|
            0 <= i && i + needle@.len() <= t@.len() && #[trigger] t@.subrange(
                i,
                i + needle@.len(),
            ) == needle@) ==> !selector_matches(selector, window),
{
}

/// A selector that asks for bundle `b` meets none of a list in which no window belongs
/// to `b`: the selection finds no match there, whatever else the windows share with it.
pub proof fn lemma_foreign_bundles_never_match(selector: WindowSelector, windows: Seq<WindowInfo>)
    requires
        windows.len() <= usize::MAX,
        selector.bundle_identifier is Some,
        forall|i: int|
            0 <= i < windows.len() ==> (#[trigger] windows[i]).bundle_identifier@
                != selector.bundle_identifier->0@,
    ensures
        matching_positions(selector, windows).len() == 0,
{
    lemma_positions_in_range(selector, windows);
    if matching_positions(selector, windows).len() > 0 {
        let p = matching_positions(selector, windows)[0];
        assert(selector_matches(selector, windows[p as int]));
    }
}

/// The window that the selection settles on meets every constraint of the selector:
/// its id, process and bundle are those asked for, and its title contains the wanted
/// text.
pub proof fn lemma_chosen_window_meets_selector(
    selector: WindowSelector,
    windows: Seq<WindowInfo>,
)
    requires
        windows.len() <= usize::MAX,
        matching_positions(selector, windows).len() == 1,
    ensures
        ({
            let w = windows[matching_positions(selector, windows)[0] as int];
            &&& selector.window_id matches Some(id) ==> w.window_id == id
            &&& selector.pid matches Some(pid) ==> w.pid == pid
            &&& selector.bundle_identifier matches Some(b) ==> w.bundle_identifier@ == b@
            &&& selector.title_contains matches Some(needle) ==> (w.title matches Some(t)
                && exists|i: int|
                0 <= i && i + needle@.len() <= t@.len() && #[trigger] t@.subrange(
                    i,
                    i + needle@.len(),
                ) == needle@)
        }),
{
    lemma_positions_in_range(selector, windows);
    let p = matching_positions(selector, windows)[0];
    assert(p < windows.len() && selector_matches(selector, windows[p as int]));
}

/// A selector that constrains only the window id meets exactly the windows with
/// that id.
pub proof fn lemma_window_id_selector(id: u32, window: WindowInfo)
    ensures
        selector_matches(
            WindowSelector {
                window_id: Some(id),
                pid: None,
                bundle_identifier: None,
                title_contains: None,
            },
            window,
        ) <==> window.window_id == id,
{
}

/// The position of the first listed window that is the chosen target, if any.
pub fn find_target(target: &TargetIdentity, windows: &Vec<WindowInfo>) -> (r: Option<usize>)
    ensures
        match r {
            Some(i) => i < windows@.len() && identifies(*target, windows@[i as int]) && forall|
                j: int,
            |
                0 <= j < i ==> !identifies(*target, #[trigger] windows@[j]),
            None => forall|j: int|
                0 <= j < windows@.len() ==> !identifies(*target, #[trigger] windows@[j]),
        },
{
    let mut i: usize = 0;
    while i < windows.len()
        invariant
            i <= windows@.len(),
            forall|j: int| 0 <= j < i ==> !identifies(*target, #[trigger] windows@[j]),
        decreases windows@.len() - i,
    {
        if target.matches(&windows[i]) {
            return Some(i);
        }
        i = i + 1;
    }
    None
}

} // verus!
