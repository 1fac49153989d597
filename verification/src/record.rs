//! The record kept for each minimized window.

use vstd::prelude::*;

verus! {

/// What is remembered of one minimized window.
#[derive(Debug, PartialEq, Eq)]
pub struct MinimizedWindow {
    /// The window manager's identifier of the window.
    pub address: String,
    /// The label shown for the window when one is picked for restoring.
    pub display_title: String,
    /// The application class of the window.
    pub class: String,
    /// The window's title as the window manager reported it.
    pub original_title: String,
    /// Where the window's thumbnail lies, if one was captured.
    pub preview_path: Option<String>,
    /// The glyph that stands for the window's application.
    pub icon: String,
}

/// The mathematical value of a `MinimizedWindow`.
pub struct WindowView {
    pub address: Seq<char>,
    pub display_title: Seq<char>,
    pub class: Seq<char>,
    pub original_title: Seq<char>,
    pub preview_path: Option<Seq<char>>,
    pub icon: Seq<char>,
}

impl View for MinimizedWindow {
    type V = WindowView;

    open spec fn view(&self) -> WindowView {
        WindowView {
            address: self.address@,
            display_title: self.display_title@,
            class: self.class@,
            original_title: self.original_title@,
            preview_path: match self.preview_path {
                Some(p) => Some(p@),
                None => None,
            },
            icon: self.icon@,
        }
    }
}

impl Clone for MinimizedWindow {
    fn clone(&self) -> (r: Self)
        ensures
            r@ == self@,
    {
        MinimizedWindow {
            address: self.address.clone(),
            display_title: self.display_title.clone(),
            class: self.class.clone(),
            original_title: self.original_title.clone(),
            preview_path: match &self.preview_path {
                Some(p) => Some(p.clone()),
                None => None,
            },
            icon: self.icon.clone(),
        }
    }
}

/// The values of a sequence of records, in order.
pub open spec fn window_views(windows: Seq<MinimizedWindow>) -> Seq<WindowView> {
    windows.map_values(|w: MinimizedWindow| w@)
}

} // verus!
