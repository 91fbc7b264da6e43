//! What a client asks for when it attaches: the request it sends and the
//! options it attaches with.
use vstd::prelude::*;

use std::time::Duration;

use crate::client_state::{find_scrollback, KnownScrollbackVersion, KnownSurfaceVersion, ScrollbackView};
use crate::kinds::{AttachMode, MouseAction, MouseButton, PatchKind};
use crate::protocol::{response_for, surface_response_for_known_version, SurfaceResponse};
use crate::text::str_eq;

verus! {

/// The first announced version of a pane, if the pane was announced.
pub open spec fn announced_version(known: Seq<(Seq<char>, u64)>, pane_id: Seq<char>) -> Option<u64>
    decreases known.len(),
{
    if known.len() == 0 {
        None
    } else {
        match announced_version(known.drop_last(), pane_id) {
            Some(v) => Some(v),
            None => if known.last().0 == pane_id {
                Some(known.last().1)
            } else {
                None
            },
        }
    }
}

/// An attach request: who attaches, how, to which pane, and which surface
/// versions the client already holds.
#[derive(Clone, Debug, PartialEq, Eq)]
pub struct AttachRequest {
    pub actor_id: String,
    pub user_id: String,
    pub display_name: String,
    pub mode: AttachMode,
    pub focused_pane_id: Option<String>,
    pub known_surfaces: Vec<KnownSurfaceVersion>,
}

/// What the server sends for a pane: nothing for a pane without a surface,
/// a snapshot for a pane the client did not announce, and otherwise what
/// the announced version calls for, with a row patch when the engine names
/// no patch kind.
pub open spec fn requested_response(
    known: Seq<(Seq<char>, u64)>,
    pane_id: Seq<char>,
    current: Option<u64>,
    patch_kind: Option<PatchKind>,
) -> Option<SurfaceResponse> {
    match current {
        None => None,
        Some(c) => match announced_version(known, pane_id) {
            None => Some(SurfaceResponse::Snapshot),
            Some(v) => response_for(
                c,
                v,
                match patch_kind {
                    Some(k) => k,
                    None => PatchKind::ReplaceRows,
                },
            ),
        },
    }
}

impl AttachRequest {
    /// The response for a pane, given the pane's current surface version and
    /// the kind of patch its engine would send.
    pub fn surface_response(
        &self,
        pane_id: &str,
        current: Option<u64>,
        patch_kind: Option<PatchKind>,
    ) -> (response: Option<SurfaceResponse>)
        ensures
            response == requested_response(
                self.known_surfaces.deep_view(),
                pane_id@,
                current,
                patch_kind,
            ),
    {
        let now = match current {
            Some(c) => c,
            None => return None,
        };
        let ghost known = self.known_surfaces.deep_view();
        let mut k: usize = 0;
        while k < self.known_surfaces.len()
            invariant
                0 <= k <= self.known_surfaces@.len(),
                known == self.known_surfaces.deep_view(),
                current == Some(now),
                announced_version(known.take(k as int), pane_id@) is None,
            decreases self.known_surfaces@.len() - k,
        {
            let entry = &self.known_surfaces[k];
            assert(known[k as int] == entry@);
            assert(known.take(k + 1).drop_last() =~= known.take(k as int));
            if str_eq(entry.pane_id.as_str(), pane_id) {
                let kind = match patch_kind {
                    Some(kind) => kind,
                    None => PatchKind::ReplaceRows,
                };
                proof {
                    assert(known.take(k + 1).last() == known[k as int]);
                    assert(announced_version(known.take(k + 1), pane_id@) == Some(entry.version));
                    lemma_announced_prefix(known, pane_id@, k + 1);
                }
                return surface_response_for_known_version(now, entry.version, kind);
            }
            k = k + 1;
        }
        assert(known.take(k as int) =~= known);
        Some(SurfaceResponse::Snapshot)
    }
}

/// A version found in a prefix is the version found in the whole list.
proof fn lemma_announced_prefix(known: Seq<(Seq<char>, u64)>, pane_id: Seq<char>, n: int)
    requires
        0 <= n <= known.len(),
        announced_version(known.take(n), pane_id) is Some,
    ensures
        announced_version(known, pane_id) == announced_version(known.take(n), pane_id),
    decreases known.len() - n,
{
    if n < known.len() {
        assert(known.take(n + 1).drop_last() =~= known.take(n));
        lemma_announced_prefix(known, pane_id, n + 1);
    } else {
        assert(known.take(n) =~= known);
    }
}

/// A mouse event a client sends once attached.
#[derive(Clone, Copy, Debug, PartialEq, Eq, Structural)]
pub struct AttachMouseInput {
    pub row: u32,
    pub col: u32,
    pub pixel_x: Option<u32>,
    pub pixel_y: Option<u32>,
    pub button: MouseButton,
    pub action: MouseAction,
    pub modifiers: u32,
}

/// How a client attaches: the request, the input it sends, the scrollback
/// it fetches and the versions of the scrollback it already holds.
#[derive(Clone, Debug, PartialEq, Eq)]
pub struct AttachOptions {
    pub request: AttachRequest,
    pub input_text: Option<String>,
    pub key_name: Option<String>,
    pub key_names: Vec<String>,
    pub key_modifiers: u32,
    pub paste_text: Option<String>,
    pub focus: Option<bool>,
    pub mouse: Option<AttachMouseInput>,
    pub scrollback_start_line: u64,
    pub scrollback_line_count: u32,
    pub scrollback_tail_count: Option<u32>,
    pub fetch_scrollback: bool,
    pub known_scrollback_version: u64,
    pub known_scrollback_versions: Vec<KnownScrollbackVersion>,
    pub connect_timeout: Option<Duration>,
}

impl Default for AttachOptions {
    fn default() -> (options: AttachOptions)
        ensures
            options.request.actor_id@ == "local-actor"@,
            options.request.user_id@ == "local-user"@,
            options.request.display_name@ == "local"@,
            options.request.mode == AttachMode::ReadWrite,
            options.request.focused_pane_id matches Some(p) && p@ == "pane-1"@,
            options.request.known_surfaces@.len() == 0,
            options.input_text matches Some(t) && t@ == "a"@,
            options.key_name is None,
            options.key_names@.len() == 0,
            options.key_modifiers == 0,
            options.paste_text is None,
            options.focus is None,
            options.mouse is None,
            options.scrollback_start_line == 1,
            options.scrollback_line_count == 2,
            options.scrollback_tail_count is None,
            options.fetch_scrollback,
            options.known_scrollback_version == 0,
            options.known_scrollback_versions@.len() == 0,
            options.connect_timeout is None,
    {
        AttachOptions {
            request: AttachRequest {
                actor_id: String::from_str("local-actor"),
                user_id: String::from_str("local-user"),
                display_name: String::from_str("local"),
                mode: AttachMode::ReadWrite,
                focused_pane_id: Some(String::from_str("pane-1")),
                known_surfaces: Vec::new(),
            },
            input_text: Some(String::from_str("a")),
            key_name: None,
            key_names: Vec::new(),
            key_modifiers: 0,
            paste_text: None,
            focus: None,
            mouse: None,
            scrollback_start_line: 1,
            scrollback_line_count: 2,
            scrollback_tail_count: None,
            fetch_scrollback: true,
            known_scrollback_version: 0,
            known_scrollback_versions: Vec::new(),
            connect_timeout: None,
        }
    }
}

/// The key names a client sends: the list when one was given, else the
/// single key name if any.
pub open spec fn named_keys(options: AttachOptions) -> Seq<Seq<char>> {
    if options.key_names@.len() == 0 {
        match options.key_name {
            Some(k) => seq![k@],
            None => Seq::empty(),
        }
    } else {
        options.key_names@.map_values(|k: String| k@)
    }
}

/// The scrollback version a client announces for a range: the version held
/// for that pane and range, else the general one.
pub open spec fn scrollback_version_for(
    known: Seq<ScrollbackView>,
    fallback: u64,
    pane_id: Seq<char>,
    start_line: u64,
    line_count: u32,
) -> u64 {
    match find_scrollback(known, pane_id, start_line, line_count) {
        Some(k) => known[k].version,
        None => fallback,
    }
}

impl AttachOptions {
    /// The key names to send, in order.
    pub fn named_key_names(&self) -> (names: Vec<&str>)
        ensures
            names@.map_values(|k: &str| k@) == named_keys(*self),
    {
        let mut names: Vec<&str> = Vec::new();
        if self.key_names.len() == 0 {
            match &self.key_name {
                Some(k) => {
                    names.push(k.as_str());
                },
                None => {},
            }
            assert(names@.map_values(|k: &str| k@) =~= named_keys(*self));
        } else {
            let mut i: usize = 0;
            while i < self.key_names.len()
                invariant
                    0 <= i <= self.key_names@.len(),
                    names@.len() == i,
                    forall|j: int| 0 <= j < i ==> (#[trigger] names@[j])@ == self.key_names@[j]@,
                decreases self.key_names@.len() - i,
            {
                names.push(self.key_names[i].as_str());
                i = i + 1;
            }
            assert(names@.map_values(|k: &str| k@) =~= named_keys(*self));
        }
        names
    }

    /// The scrollback version to announce for a pane and range.
    pub fn known_scrollback_version_for(&self, pane_id: &str, start_line: u64, line_count: u32) -> (version: u64)
        ensures
            version == scrollback_version_for(
                self.known_scrollback_versions.deep_view(),
                self.known_scrollback_version,
                pane_id@,
                start_line,
                line_count,
            ),
    {
        let ghost known = self.known_scrollback_versions.deep_view();
        let mut k: usize = 0;
        while k < self.known_scrollback_versions.len()
            invariant
                0 <= k <= self.known_scrollback_versions@.len(),
                known == self.known_scrollback_versions.deep_view(),
                find_scrollback(known.take(k as int), pane_id@, start_line, line_count) is None,
            decreases self.known_scrollback_versions@.len() - k,
        {
            let entry = &self.known_scrollback_versions[k];
            assert(known[k as int] == entry@);
            assert(known.take(k + 1).drop_last() =~= known.take(k as int));
            if entry.start_line == start_line && entry.line_count == line_count && str_eq(
                entry.pane_id.as_str(),
                pane_id,
            ) {
                proof {
                    assert(known.take(k + 1).last() == known[k as int]);
                    assert(find_scrollback(known.take(k + 1), pane_id@, start_line, line_count) == Some(k as int));
                    lemma_found_prefix(known, pane_id@, start_line, line_count, k + 1);
                }
                return entry.version;
            }
            k = k + 1;
        }
        assert(known.take(k as int) =~= known);
        self.known_scrollback_version
    }
}

/// A range found in a prefix is the range found in the whole list.
proof fn lemma_found_prefix(
    known: Seq<ScrollbackView>,
    pane_id: Seq<char>,
    start_line: u64,
    line_count: u32,
    n: int,
)
    requires
        0 <= n <= known.len(),
        find_scrollback(known.take(n), pane_id, start_line, line_count) is Some,
    ensures
        find_scrollback(known, pane_id, start_line, line_count) == find_scrollback(
            known.take(n),
            pane_id,
            start_line,
            line_count,
        ),
    decreases known.len() - n,
{
    if n < known.len() {
        assert(known.take(n + 1).drop_last() =~= known.take(n));
        lemma_found_prefix(known, pane_id, start_line, line_count, n + 1);
    } else {
        assert(known.take(n) =~= known);
    }
}

/// The input an attach sends once attached.
#[derive(Clone, Debug, PartialEq, Eq)]
pub enum AttachInput {
    NamedKeys { names: Vec<String>, modifiers: u32 },
    Mouse(AttachMouseInput),
    Focus(bool),
    Paste(String),
    Text(String),
}

impl AttachOptions {
    /// The input to send after attaching: none for a read-only attach;
    /// otherwise the named keys, the mouse event, the focus change, the
    /// pasted text or the typed text, the first of these that was given.
    pub fn attach_input(&self) -> (input: Option<AttachInput>)
        ensures
            self.request.mode == AttachMode::ReadOnly ==> input is None,
            self.request.mode == AttachMode::ReadWrite ==> if named_keys(*self).len() > 0 {
                input matches Some(AttachInput::NamedKeys { names, modifiers }) && names@.map_values(
                    |k: String| k@,
                ) == named_keys(*self) && modifiers == self.key_modifiers
            } else if self.mouse is Some {
                input == Some(AttachInput::Mouse(self.mouse->Some_0))
            } else if self.focus is Some {
                input == Some(AttachInput::Focus(self.focus->Some_0))
            } else if self.paste_text is Some {
                input matches Some(AttachInput::Paste(t)) && t@ == self.paste_text->Some_0@
            } else if self.input_text is Some {
                input matches Some(AttachInput::Text(t)) && t@ == self.input_text->Some_0@
            } else {
                input is None
            },
    {
        if matches!(self.request.mode, AttachMode::ReadOnly) {
            return None;
        }
        let keys = self.named_key_names();
        if keys.len() > 0 {
            let mut names: Vec<String> = Vec::new();
            let mut i: usize = 0;
            while i < keys.len()
                invariant
                    0 <= i <= keys@.len(),
                    names@.len() == i,
                    forall|j: int| 0 <= j < i ==> (#[trigger] names@[j])@ == keys@[j]@,
                decreases keys@.len() - i,
            {
                names.push(String::from_str(keys[i]));
                i = i + 1;
            }
            assert(names@.map_values(|k: String| k@) =~= keys@.map_values(|k: &str| k@));
            return Some(AttachInput::NamedKeys { names, modifiers: self.key_modifiers });
        }
        if let Some(mouse) = self.mouse {
            return Some(AttachInput::Mouse(mouse));
        }
        if let Some(focused) = self.focus {
            return Some(AttachInput::Focus(focused));
        }
        if let Some(t) = &self.paste_text {
            return Some(AttachInput::Paste(t.clone()));
        }
        if let Some(t) = &self.input_text {
            return Some(AttachInput::Text(t.clone()));
        }
        None
    }
}

/// The first line of the last `tail_count` lines of a scrollback of
/// `total_lines` lines; line 1 when the scrollback is shorter.
pub open spec fn tail_start(total_lines: u64, tail_count: u32) -> u64 {
    if total_lines > tail_count {
        (total_lines - tail_count + 1) as u64
    } else {
        1
    }
}

/// The tail window starts at line 1 or later and ends at the last line: it
/// holds `tail_count` lines, or every line when there are fewer.
pub proof fn lemma_tail_window(total_lines: u64, tail_count: u32)
    requires
        tail_count > 0 || total_lines < u64::MAX,
    ensures
        tail_start(total_lines, tail_count) >= 1,
        total_lines <= tail_count ==> tail_start(total_lines, tail_count) == 1,
        tail_count > 0 && total_lines >= tail_count ==> total_lines - tail_start(
            total_lines,
            tail_count,
        ) + 1 == tail_count,
{
}

/// Where a fetch of the last `tail_count` lines starts.
pub fn tail_window_start(total_lines: u64, tail_count: u32) -> (start_line: u64)
    requires
        tail_count > 0 || total_lines < u64::MAX,
    ensures
        start_line == tail_start(total_lines, tail_count),
{
    let tail = tail_count as u64;
    if total_lines > tail {
        total_lines - tail + 1
    } else {
        1
    }
}

} // verus!
