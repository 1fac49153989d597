//! The decisions of the minimize and restore commands. Talking to the window
//! manager and to the file system is the caller's part: it hands in what it
//! was told and carries out what comes back.

use vstd::prelude::*;
use vstd::string::StringExecFns;
use crate::icons::{app_icon, get_app_icon};
use crate::info::{parse_window_info, window_info, WindowInfo};
use crate::number::{decimal, parse_i32, parsed_i32, push_decimal, push_signed_decimal, signed_decimal};
use crate::record::{MinimizedWindow, WindowView};
use crate::registry::{
    addresses_unique, holds_address, lemma_insert_keeps_unique, lemma_remove_last_address,
    without_address, Registry,
};
use crate::text::{
    chars_of, option_str_view, push_char, str_eq, string_of, trim, trimmed, CharSet,
};

verus! {

/// The window that is to be minimized, as the window manager described it.
#[derive(Debug, PartialEq, Eq)]
pub struct ActiveWindow {
    pub address: String,
    pub class: String,
    pub title: String,
    /// Position and size of the window, for capturing a preview of it.
    pub geometry: Option<String>,
}

/// The mathematical value of an `ActiveWindow`.
pub struct ActiveWindowView {
    pub address: Seq<char>,
    pub class: Seq<char>,
    pub title: Seq<char>,
    pub geometry: Option<Seq<char>>,
}

/// The text of an optional string.
pub open spec fn option_view(s: Option<String>) -> Option<Seq<char>> {
    match s {
        Some(t) => Some(t@),
        None => None,
    }
}

impl View for ActiveWindow {
    type V = ActiveWindowView;

    open spec fn view(&self) -> ActiveWindowView {
        ActiveWindowView {
            address: self.address@,
            class: self.class@,
            title: self.title@,
            geometry: option_view(self.geometry),
        }
    }
}

/// The class of the picker's own window, which is never minimized.
pub open spec fn excluded_class() -> Seq<char> {
    "wofi"@
}

/// Position and size as the capture tool takes them, where the window
/// manager told both.
pub open spec fn capture_geometry(info: Map<Seq<char>, Seq<char>>) -> Option<Seq<char>> {
    if info.contains_key("at"@) && info.contains_key("size"@) {
        Some(
            trimmed(info["at"@], CharSet::Whitespace) + seq![','] + trimmed(
                info["size"@],
                CharSet::Whitespace,
            ),
        )
    } else {
        None
    }
}

/// The window to minimize, given the attributes of the active window: none
/// where the class is the excluded one, or where address, class or title is
/// not told.
pub open spec fn described_window(info: Map<Seq<char>, Seq<char>>) -> Option<ActiveWindowView> {
    if info.contains_key("address"@) && info.contains_key("class"@) && info.contains_key(
        "title"@,
    ) && info["class"@] != excluded_class() {
        Some(
            ActiveWindowView {
                address: info["address"@],
                class: info["class"@],
                title: info["title"@],
                geometry: capture_geometry(info),
            },
        )
    } else {
        None
    }
}

/// The window to minimize, given the window manager's answer about the
/// active window, or `None` where it gave none.
pub open spec fn minimize_target(answer: Option<Seq<char>>) -> Option<ActiveWindowView> {
    match answer {
        Some(text) => described_window(window_info(text)),
        None => None,
    }
}

/// Decides from the window manager's answer about the active window
/// whether there is a window to minimize, and which.
pub fn active_window(answer: Option<&str>) -> (r: Option<ActiveWindow>)
    ensures
        match r {
            Some(w) => minimize_target(option_str_view(answer)) == Some(w@),
            None => minimize_target(option_str_view(answer)) is None,
        },
{
    match answer {
        Some(text) => window_from_info(&parse_window_info(text)),
        None => None,
    }
}

/// Decides from the attributes of the active window whether there is a
/// window to minimize, and which.
pub fn window_from_info(info: &WindowInfo) -> (r: Option<ActiveWindow>)
    ensures
        match r {
            Some(w) => described_window(info@) == Some(w@),
            None => described_window(info@) is None,
        },
{
    let class = match info.get("class") {
        Some(c) => c,
        None => {
            return None;
        },
    };
    if str_eq(class.as_str(), "wofi") {
        return None;
    }
    let address = match info.get("address") {
        Some(a) => a,
        None => {
            return None;
        },
    };
    let title = match info.get("title") {
        Some(t) => t,
        None => {
            return None;
        },
    };
    let geometry = match info.get("at") {
        Some(at) => match info.get("size") {
            Some(size) => {
                let position = trim(&chars_of(at.as_str()), CharSet::Whitespace);
                let extent = trim(&chars_of(size.as_str()), CharSet::Whitespace);
                let mut text = string_of(&position);
                push_char(&mut text, ',');
                text.append(string_of(&extent).as_str());
                assert(text@ =~= position@ + seq![','] + extent@);
                Some(text)
            },
            None => None,
        },
        None => None,
    };
    let window = ActiveWindow {
        address: address.clone(),
        class: class.clone(),
        title: title.clone(),
        geometry,
    };
    assert(window@.geometry == capture_geometry(info@));
    assert(window@ == described_window(info@)->0);
    Some(window)
}

/// The last four characters of an address, last first; all of them where
/// there are fewer.
pub open spec fn short_address(address: Seq<char>) -> Seq<char> {
    let n = if address.len() < 4 {
        address.len()
    } else {
        4
    };
    Seq::new(n, |i: int| address[address.len() - 1 - i])
}

/// Shortens an address to what the picker shows of it.
pub fn shorten_address(address: &str) -> (r: String)
    ensures
        r@ == short_address(address@),
{
    let v = chars_of(address);
    let n: usize = if v.len() < 4 {
        v.len()
    } else {
        4
    };
    let mut r = String::new();
    let mut i: usize = 0;
    while i < n
        invariant
            i <= n <= v.len(),
            v@ == address@,
            r@ == Seq::new(i as nat, |k: int| v@[v.len() - 1 - k]),
        decreases n - i,
    {
        push_char(&mut r, v[v.len() - 1 - i]);
        i += 1;
        assert(r@ =~= Seq::new(i as nat, |k: int| v@[v.len() - 1 - k]));
    }
    assert(r@ =~= short_address(address@));
    r
}

/// The label of a window in the picker.
pub open spec fn display_title(
    icon: Seq<char>,
    class: Seq<char>,
    title: Seq<char>,
    short: Seq<char>,
) -> Seq<char> {
    icon + " "@ + class + " - "@ + title + " ["@ + short + "]"@
}

/// The record of a window that is being minimized.
pub open spec fn record_for(window: ActiveWindowView, preview: Option<Seq<char>>) -> WindowView {
    WindowView {
        address: window.address,
        display_title: display_title(
            app_icon(window.class),
            window.class,
            window.title,
            short_address(window.address),
        ),
        class: window.class,
        original_title: window.title,
        preview_path: preview,
        icon: app_icon(window.class),
    }
}

/// Builds the record of a window that is being minimized. `preview` is
/// where its thumbnail lies, if one was captured.
pub fn minimized_record(window: &ActiveWindow, preview: Option<String>) -> (r: MinimizedWindow)
    ensures
        r@ == record_for(window@, option_view(preview)),
{
    let icon = get_app_icon(window.class.as_str());
    let short = shorten_address(window.address.as_str());
    let mut label = icon.clone();
    label.append(" ");
    label.append(window.class.as_str());
    label.append(" - ");
    label.append(window.title.as_str());
    label.append(" [");
    label.append(short.as_str());
    label.append("]");
    MinimizedWindow {
        address: window.address.clone(),
        display_title: label,
        class: window.class.clone(),
        original_title: window.title.clone(),
        preview_path: preview,
        icon,
    }
}

/// Where the window manager is told to put a window that is minimized.
pub open spec fn hidden_target(address: Seq<char>) -> Seq<char> {
    "special:minimum,address:"@ + address
}

/// The target of the move that hides a window.
pub fn hide_target(address: &str) -> (r: String)
    ensures
        r@ == hidden_target(address@),
{
    let mut r = String::from_str("special:minimum,address:");
    r.append(address);
    r
}

/// The registry after a minimize: with the record added where the window
/// was moved away, unchanged where it was not.
pub open spec fn minimized(ws: Seq<WindowView>, record: WindowView, moved: bool) -> Seq<
    WindowView,
> {
    if moved {
        ws.push(record)
    } else {
        ws
    }
}

/// The registry after a restore of `address`.
pub open spec fn restored(ws: Seq<WindowView>, address: Seq<char>) -> Seq<WindowView> {
    without_address(ws, address)
}

/// The registry after a restore of the most recent record's address.
pub open spec fn restored_last(ws: Seq<WindowView>) -> Seq<WindowView> {
    if ws.len() > 0 {
        restored(ws, ws.last().address)
    } else {
        ws
    }
}

/// The registry after a restore of each of the given addresses in turn.
pub open spec fn restored_each(ws: Seq<WindowView>, addresses: Seq<Seq<char>>) -> Seq<WindowView>
    decreases addresses.len(),
{
    if addresses.len() == 0 {
        ws
    } else {
        restored_each(restored(ws, addresses[0]), addresses.drop_first())
    }
}

/// The addresses of the records, in order.
pub open spec fn addresses_of(ws: Seq<WindowView>) -> Seq<Seq<char>> {
    ws.map_values(|w: WindowView| w.address)
}

/// The registry after a restore of each record's address, in the order of
/// the records.
pub open spec fn restored_all(ws: Seq<WindowView>) -> Seq<WindowView> {
    restored_each(ws, addresses_of(ws))
}

/// The views of a list of strings.
pub open spec fn string_views(v: Seq<String>) -> Seq<Seq<char>> {
    v.map_values(|s: String| s@)
}

/// Finishes a minimize. `moved` tells whether the window manager moved the
/// window away: only then is the record added. Returns whether the registry
/// changed, so that it is to be saved and the status bar told.
pub fn minimize(registry: &mut Registry, record: MinimizedWindow, moved: bool) -> (changed: bool)
    ensures
        final(registry)@ == minimized(old(registry)@, record@, moved),
        changed == moved,
        addresses_unique(old(registry)@) && (moved ==> !holds_address(
            old(registry)@,
            record@.address,
        )) ==> addresses_unique(final(registry)@),
{
    proof {
        if addresses_unique(registry@) && !holds_address(registry@, record@.address) {
            lemma_insert_keeps_unique(registry@, record@);
        }
    }
    if moved {
        registry.insert(record);
    }
    moved
}

/// Finishes a restore of `address`: its record leaves the registry,
/// whatever the window manager made of the move.
pub fn restore(registry: &mut Registry, address: &str)
    ensures
        final(registry)@ == restored(old(registry)@, address@),
        !holds_address(old(registry)@, address@) ==> final(registry)@ == old(registry)@,
        !holds_address(final(registry)@, address@),
        addresses_unique(old(registry)@) ==> addresses_unique(final(registry)@),
{
    registry.remove_by_address(address);
}

/// Restores the most recently minimized window: returns its address, for
/// the window manager, and takes its record out. Returns `None` and changes
/// nothing where the registry is empty.
pub fn restore_last(registry: &mut Registry) -> (r: Option<String>)
    ensures
        final(registry)@ == restored_last(old(registry)@),
        match r {
            Some(address) => old(registry)@.len() > 0 && address@ == old(registry)@.last().address,
            None => old(registry)@.len() == 0,
        },
        old(registry)@.len() > 0 && !holds_address(
            old(registry)@.drop_last(),
            old(registry)@.last().address,
        ) ==> final(registry)@ == old(registry)@.drop_last(),
        addresses_unique(old(registry)@) ==> addresses_unique(final(registry)@),
{
    proof {
        if registry@.len() > 0 && !holds_address(registry@.drop_last(), registry@.last().address) {
            lemma_remove_last_address(registry@);
        }
    }
    let n = registry.windows.len();
    if n == 0 {
        return None;
    }
    let address = registry.windows[n - 1].address.clone();
    registry.remove_by_address(address.as_str());
    Some(address)
}

/// Restores every minimized window: returns the addresses in the order of
/// the records, for the window manager, and takes the record of each out in
/// turn.
pub fn restore_all(registry: &mut Registry) -> (r: Vec<String>)
    ensures
        string_views(r@) == addresses_of(old(registry)@),
        final(registry)@ == restored_all(old(registry)@),
        final(registry)@ == Seq::<WindowView>::empty(),
{
    let ghost before = registry@;
    proof {
        crate::workflow_laws::lemma_restore_all_empties(before);
    }
    let mut addresses: Vec<String> = Vec::new();
    let mut i: usize = 0;
    while i < registry.windows.len()
        invariant
            i <= registry.windows.len(),
            registry@ == before,
            string_views(addresses@) =~= addresses_of(before).take(i as int),
        decreases registry.windows.len() - i,
    {
        let ghost so_far = string_views(addresses@);
        let address = registry.windows[i].address.clone();
        addresses.push(address);
        assert(string_views(addresses@) =~= so_far.push(address@));
        assert(before[i as int].address == address@);
        i += 1;
    }
    assert(addresses_of(before).take(registry.windows.len() as int) =~= addresses_of(before));
    let ghost all = addresses_of(before);
    let mut k: usize = 0;
    assert(all.skip(0) =~= all);
    while k < addresses.len()
        invariant
            k <= addresses.len(),
            string_views(addresses@) == all,
            restored_each(before, all) == restored_each(registry@, all.skip(k as int)),
        decreases addresses.len() - k,
    {
        assert(all.skip(k as int)[0] == addresses@[k as int]@);
        assert(all.skip(k as int).drop_first() =~= all.skip(k + 1));
        registry.remove_by_address(addresses[k].as_str());
        k += 1;
    }
    assert(all.skip(addresses.len() as int) =~= Seq::<Seq<char>>::empty());
    addresses
}


/// The workspace to restore a window to, given the window manager's answer
/// about the active workspace, or `None` where it gave none: the number
/// under `id` where the answer holds one, else workspace 1.
pub open spec fn workspace_of(answer: Option<Seq<char>>) -> int {
    match answer {
        Some(text) => {
            let info = window_info(text);
            if info.contains_key("id"@) {
                match parsed_i32(info["id"@]) {
                    Some(id) => id,
                    None => 1,
                }
            } else {
                1
            }
        },
        None => 1,
    }
}

/// Decides the workspace to restore a window to.
pub fn current_workspace(answer: Option<&str>) -> (id: i32)
    ensures
        id == workspace_of(option_str_view(answer)),
{
    match answer {
        Some(text) => {
            let info = parse_window_info(text);
            match info.get("id") {
                Some(id) => match parse_i32(id.as_str()) {
                    Some(n) => n,
                    None => 1,
                },
                None => 1,
            }
        },
        None => 1,
    }
}

/// The target of the move that brings a window to a workspace.
pub open spec fn workspace_target(workspace: int, address: Seq<char>) -> Seq<char> {
    signed_decimal(workspace) + ",address:"@ + address
}

/// The target of the focus on a window.
pub open spec fn focus_target(address: Seq<char>) -> Seq<char> {
    "address:"@ + address
}

/// Names the target of the move that brings a window to a workspace.
pub fn move_to_workspace(workspace: i32, address: &str) -> (target: String)
    ensures
        target@ == workspace_target(workspace as int, address@),
{
    let mut target = String::new();
    push_signed_decimal(&mut target, workspace);
    target.append(",address:");
    target.append(address);
    assert(target@ =~= workspace_target(workspace as int, address@));
    target
}

/// Names the target of the focus on a window.
pub fn focus_on(address: &str) -> (target: String)
    ensures
        target@ == focus_target(address@),
{
    let mut target = String::from_str("address:");
    target.append(address);
    target
}

/// What a restore command asks for.
#[derive(Debug, PartialEq, Eq)]
pub enum RestoreRequest {
    /// Bring back the window with this address.
    Window(String),
    /// Let the user pick a window.
    Menu,
}

/// Reads a restore command: with an address it is for that window, without
/// one it opens the picker.
pub fn restore_window(window_id: Option<&str>) -> (r: RestoreRequest)
    ensures
        match window_id {
            Some(id) => r matches RestoreRequest::Window(address) && address@ == id@,
            None => r == RestoreRequest::Menu,
        },
{
    match window_id {
        Some(id) => RestoreRequest::Window(String::from_str(id)),
        None => RestoreRequest::Menu,
    }
}

/// Whether the picker is worth opening: only where a window is minimized.
pub fn menu_opens(registry: &Registry) -> (r: bool)
    ensures
        r == (registry@.len() > 0),
{
    registry.len() > 0
}

/// What the status bar shows.
#[derive(Debug, PartialEq, Eq)]
pub struct StatusReport {
    /// The number of minimized windows.
    pub count: usize,
    pub text: String,
    /// The style class: `has-windows` or `empty`.
    pub class: String,
    pub tooltip: String,
}

/// The text of the status bar for `count` minimized windows.
pub open spec fn status_text(count: nat) -> Seq<char> {
    if count > 0 {
        "\u{f0638} "@ + decimal(count)
    } else {
        "\u{f0638}"@
    }
}

/// The style class of the status bar for `count` minimized windows.
pub open spec fn status_class(count: nat) -> Seq<char> {
    if count > 0 {
        "has-windows"@
    } else {
        "empty"@
    }
}

/// The tooltip of the status bar for `count` minimized windows.
pub open spec fn status_tooltip(count: nat) -> Seq<char> {
    if count > 0 {
        decimal(count) + " minimized windows"@
    } else {
        "No minimized windows"@
    }
}

/// The status report as the status bar reads it.
pub open spec fn rendered_status(text: Seq<char>, class: Seq<char>, tooltip: Seq<char>) -> Seq<
    char,
> {
    "{\"text\":\""@ + text + "\",\"class\":\""@ + class + "\",\"tooltip\":\""@ + tooltip + "\"}"@
}

/// Reports how many windows are minimized.
pub fn status(registry: &Registry) -> (r: StatusReport)
    ensures
        r.count == registry@.len(),
        r.text@ == status_text(registry@.len()),
        r.class@ == status_class(registry@.len()),
        r.tooltip@ == status_tooltip(registry@.len()),
{
    let count = registry.len();
    if count > 0 {
        let mut text = String::from_str("\u{f0638} ");
        push_decimal(&mut text, count as u64);
        let mut tooltip = String::new();
        push_decimal(&mut tooltip, count as u64);
        tooltip.append(" minimized windows");
        assert(tooltip@ =~= status_tooltip(count as nat));
        StatusReport { count, text, class: String::from_str("has-windows"), tooltip }
    } else {
        StatusReport {
            count,
            text: String::from_str("\u{f0638}"),
            class: String::from_str("empty"),
            tooltip: String::from_str("No minimized windows"),
        }
    }
}

impl StatusReport {
    /// The report as one line of text for the status bar.
    pub fn render(&self) -> (line: String)
        ensures
            line@ == rendered_status(self.text@, self.class@, self.tooltip@),
    {
        let mut line = String::from_str("{\"text\":\"");
        line.append(self.text.as_str());
        line.append("\",\"class\":\"");
        line.append(self.class.as_str());
        line.append("\",\"tooltip\":\"");
        line.append(self.tooltip.as_str());
        line.append("\"}");
        line
    }
}

/// Where a window's captured image and its thumbnail lie.
#[derive(Debug, PartialEq, Eq)]
pub struct PreviewFiles {
    /// The full capture, which is removed once the thumbnail is made.
    pub capture: String,
    pub thumbnail: String,
}

/// The file of a window's capture in `directory`.
pub open spec fn capture_file(directory: Seq<char>, window_id: Seq<char>) -> Seq<char> {
    directory + "/"@ + window_id + ".png"@
}

/// The file of a window's thumbnail in `directory`.
pub open spec fn thumbnail_file(directory: Seq<char>, window_id: Seq<char>) -> Seq<char> {
    directory + "/"@ + window_id + ".thumb.png"@
}

/// Names the files of a window's preview.
pub fn preview_files(directory: &str, window_id: &str) -> (r: PreviewFiles)
    ensures
        r.capture@ == capture_file(directory@, window_id@),
        r.thumbnail@ == thumbnail_file(directory@, window_id@),
{
    let mut capture = String::from_str(directory);
    capture.append("/");
    capture.append(window_id);
    let mut thumbnail = capture.clone();
    capture.append(".png");
    thumbnail.append(".thumb.png");
    PreviewFiles { capture, thumbnail }
}

/// What the program is asked to do.
#[derive(Debug, PartialEq, Eq)]
pub enum Command {
    Minimize,
    /// Restore the window with the given address, or open the picker.
    Restore(Option<String>),
    RestoreAll,
    RestoreLast,
    Show,
    /// Anything else, with the word that was given: the usage is shown.
    Unknown(String),
}

/// The command that the first argument names; the program's own name, at
/// index 0, is not counted.
pub open spec fn command_word(args: Seq<Seq<char>>) -> Seq<char> {
    if args.len() > 1 {
        args[1]
    } else {
        Seq::empty()
    }
}

/// Reads the command from the program's arguments.
pub fn parse_command(args: &Vec<String>) -> (r: Command)
    ensures
        ({
            let word = command_word(string_views(args@));
            if word == "minimize"@ {
                r == Command::Minimize
            } else if word == "restore"@ {
                match r {
                    Command::Restore(Some(id)) => args@.len() > 2 && id@ == args@[2]@,
                    Command::Restore(None) => args@.len() <= 2,
                    _ => false,
                }
            } else if word == "restore-all"@ {
                r == Command::RestoreAll
            } else if word == "restore-last"@ {
                r == Command::RestoreLast
            } else if word == "show"@ {
                r == Command::Show
            } else {
                r matches Command::Unknown(given) && given@ == word
            }
        }),
{
    let word = if args.len() > 1 {
        args[1].clone()
    } else {
        String::new()
    };
    assert(word@ == command_word(string_views(args@)));
    if str_eq(word.as_str(), "minimize") {
        Command::Minimize
    } else if str_eq(word.as_str(), "restore") {
        if args.len() > 2 {
            Command::Restore(Some(args[2].clone()))
        } else {
            Command::Restore(None)
        }
    } else if str_eq(word.as_str(), "restore-all") {
        Command::RestoreAll
    } else if str_eq(word.as_str(), "restore-last") {
        Command::RestoreLast
    } else if str_eq(word.as_str(), "show") {
        Command::Show
    } else {
        Command::Unknown(word)
    }
}

} // verus!
