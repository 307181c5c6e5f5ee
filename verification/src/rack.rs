//! Decisions of the desktop rack view: keyboard modifiers for the engine,
//! what a drag on a module starts, which way round a dragged cable
//! connects, and which catalog entries the module browser shows.

use vstd::prelude::*;

use crate::engine::{CatalogEntry, EventResult, ModuleId};
use crate::text::str_equal;
use vstd::string::*;

verus! {

/// The keyboard modifiers held during an input event.
#[derive(Debug, Clone, Copy, PartialEq, Eq, Structural)]
pub struct Modifiers {
    pub shift: bool,
    pub ctrl: bool,
    pub alt: bool,
    pub mac_cmd: bool,
    pub command: bool,
}

/// `value` when `held`, else 0.
pub open spec fn flag(held: bool, value: int) -> int {
    if held {
        value
    } else {
        0
    }
}

/// The engine's modifier bit mask: shift 1, control 2, alt 4, and 8 for
/// the command key (either the Mac command key or the platform command).
pub fn egui_mods_to_rack(modifiers: &Modifiers) -> (mods: i32)
    ensures
        mods == flag(modifiers.shift, 1) + flag(modifiers.ctrl, 2) + flag(modifiers.alt, 4) + flag(
            modifiers.mac_cmd || modifiers.command,
            8,
        ),
{
    let mut mods: i32 = 0;
    if modifiers.shift {
        assert((0i32 | 1i32) == 1i32) by (bit_vector);
        mods = mods | 1;
    }
    assert(mods == flag(modifiers.shift, 1));
    if modifiers.ctrl {
        let m = mods;
        assert(0 <= m < 2 ==> (m | 2) == m + 2) by (bit_vector);
        mods = mods | 2;
    }
    assert(mods == flag(modifiers.shift, 1) + flag(modifiers.ctrl, 2));
    if modifiers.alt {
        let m = mods;
        assert(0 <= m < 4 ==> (m | 4) == m + 4) by (bit_vector);
        mods = mods | 4;
    }
    assert(mods == flag(modifiers.shift, 1) + flag(modifiers.ctrl, 2) + flag(modifiers.alt, 4));
    if modifiers.mac_cmd || modifiers.command {
        let m = mods;
        assert(0 <= m < 8 ==> (m | 8) == m + 8) by (bit_vector);
        mods = mods | 8;
    }
    mods
}

/// What a drag that starts on a module does.
#[derive(Debug, Clone, Copy, PartialEq, Eq, Structural)]
pub enum DragStart {
    /// Drag a new cable from the port the press landed on.
    Cable { port_id: i32, is_output: bool },
    /// Keep forwarding the drag to the widget that took the press.
    Widget,
    /// Move the module.
    Module,
}

/// The drag a press on a module starts, from the engine's answer to the
/// press: a consumed press on a port drags a cable, another consumed press
/// drags the widget, and an unanswered or ignored press moves the module.
pub fn drag_start(reply: Option<EventResult>) -> (start: DragStart)
    ensures
        start == match reply {
            Some(r) => if r.consumed {
                match r.port_drag {
                    Some(p) => DragStart::Cable { port_id: p.port_id, is_output: p.is_output },
                    None => DragStart::Widget,
                }
            } else {
                DragStart::Module
            },
            None => DragStart::Module,
        },
{
    match reply {
        Some(r) => {
            if r.consumed {
                match r.port_drag {
                    Some(p) => DragStart::Cable { port_id: p.port_id, is_output: p.is_output },
                    None => DragStart::Widget,
                }
            } else {
                DragStart::Module
            }
        },
        None => DragStart::Module,
    }
}

/// The cable a drag from one port to another makes, as (output module,
/// output port, input module, input port): it runs from whichever end is
/// the output to the one that is the input. Two outputs or two inputs, or
/// a negative port id, make no cable.
pub fn cable_endpoints(
    from_module: ModuleId,
    from_port: i32,
    from_is_output: bool,
    to_module: ModuleId,
    to_port: i32,
    to_is_output: bool,
) -> (ends: Option<(ModuleId, i32, ModuleId, i32)>)
    ensures
        ends == if from_is_output && !to_is_output && from_port >= 0 && to_port >= 0 {
            Some((from_module, from_port, to_module, to_port))
        } else if !from_is_output && to_is_output && from_port >= 0 && to_port >= 0 {
            Some((to_module, to_port, from_module, from_port))
        } else {
            None::<(ModuleId, i32, ModuleId, i32)>
        },
{
    let (om, op, im, ip) = if from_is_output && !to_is_output {
        (from_module, from_port, to_module, to_port)
    } else if !from_is_output && to_is_output {
        (to_module, to_port, from_module, from_port)
    } else {
        (from_module, -1, to_module, -1)
    };
    if op >= 0 && ip >= 0 {
        Some((om, op, im, ip))
    } else {
        None
    }
}

// ── Module browser filter ───────────────────────────────────────────────────

/// What `str::to_lowercase` returns for a string: its lowercase mapping
/// under the Unicode tables of the standard library.
pub uninterp spec fn lowercase(s: Seq<char>) -> Seq<char>;

/// `str::to_lowercase`: the string with every character mapped to its
/// Unicode lowercase form. Claimed: the result is `lowercase` of the input.
#[verifier::external_body]
fn to_lowercase(s: &str) -> (lower: String)
    ensures
        lower@ == lowercase(s@),
{
    s.to_lowercase()
}

/// `needle` occurs in `hay` as a run of consecutive characters (the empty
/// string occurs everywhere).
pub open spec fn has_substring(hay: Seq<char>, needle: Seq<char>) -> bool {
    exists|i: int| 0 <= i <= hay.len() - needle.len() && #[trigger] hay.subrange(i, i + needle.len()) == needle
}

/// Whether `needle` occurs in `hay`.
pub fn contains_str(hay: &str, needle: &str) -> (found: bool)
    ensures
        found == has_substring(hay@, needle@),
{
    let h = hay.unicode_len();
    let n = needle.unicode_len();
    if n == 0 {
        assert(hay@.subrange(0, 0int + needle@.len()) =~= needle@);
        return true;
    }
    if n > h {
        return false;
    }
    let mut i: usize = 0;
    while i <= h - n
        invariant
            h == hay@.len(),
            n == needle@.len(),
            0 < n <= h,
            i <= h - n + 1,
            forall|k: int| 0 <= k < i ==> #[trigger] hay@.subrange(k, k + n) != needle@,
        decreases h - n + 1 - i,
    {
        let mut j: usize = 0;
        let mut same = true;
        while j < n && same
            invariant
                h == hay@.len(),
                n == needle@.len(),
                i + n <= h,
                j <= n,
                same ==> hay@.subrange(i as int, i + j) == needle@.subrange(0, j as int),
                !same ==> hay@.subrange(i as int, i + n) != needle@,
            decreases n - j + (if same { 1int } else { 0int }),
        {
            if hay.get_char(i + j) != needle.get_char(j) {
                same = false;
                assert(hay@.subrange(i as int, i + n)[j as int] != needle@[j as int]);
            } else {
                assert(hay@.subrange(i as int, i + j + 1) =~= hay@.subrange(i as int, i + j).push(hay@[i + j]));
                assert(needle@.subrange(0, j + 1) =~= needle@.subrange(0, j as int).push(needle@[j as int]));
                j = j + 1;
            }
        }
        if same {
            assert(needle@.subrange(0, n as int) =~= needle@);
            assert(hay@.subrange(i as int, i + needle@.len()) == needle@);
            return true;
        }
        i = i + 1;
    }
    assert forall|k: int| 0 <= k <= hay@.len() - needle@.len() implies #[trigger] hay@.subrange(k, k + needle@.len()) != needle@ by {
        assert(k < i);
    }
    false
}

/// The browser's filter text as it is matched: lowercased.
pub fn filter_key(filter: &str) -> (key: String)
    ensures
        key@ == lowercase(filter@),
{
    to_lowercase(filter)
}

/// The browser lists `entry` under a lowercased filter `key`: always when
/// the filter is empty, else when the lowercased model name or plugin slug
/// contains it.
pub fn browser_shows(entry: &CatalogEntry, key: &str) -> (shown: bool)
    ensures
        shown == (key@.len() == 0 || has_substring(lowercase(entry.model_name@), key@)
            || has_substring(lowercase(entry.plugin_slug@), key@)),
{
    if key.unicode_len() == 0 {
        return true;
    }
    let name = to_lowercase(entry.model_name.as_str());
    if contains_str(name.as_str(), key) {
        return true;
    }
    let slug = to_lowercase(entry.plugin_slug.as_str());
    contains_str(slug.as_str(), key)
}

// ── Module names ────────────────────────────────────────────────────────────

/// Catalog entry `e` is model `model` of plugin `plugin`.
pub open spec fn entry_is(e: CatalogEntry, plugin: Seq<char>, model: Seq<char>) -> bool {
    e.plugin_slug@ == plugin && e.model_slug@ == model
}

/// The name a placed module is shown under: the model name of the first
/// catalog entry for that plugin and model, or the model slug when the
/// catalog has none.
pub fn module_display_name(catalog: &[CatalogEntry], plugin: &str, model: &str) -> (name: String)
    ensures
        (exists|i: int|
            0 <= i < catalog@.len() && entry_is(catalog@[i], plugin@, model@) && (forall|j: int|
                0 <= j < i ==> !entry_is(#[trigger] catalog@[j], plugin@, model@))
                && name@ == catalog@[i].model_name@) || ((forall|i: int|
            0 <= i < catalog@.len() ==> !entry_is(#[trigger] catalog@[i], plugin@, model@))
            && name@ == model@),
{
    let mut i: usize = 0;
    while i < catalog.len()
        invariant
            i <= catalog@.len(),
            forall|j: int| 0 <= j < i ==> !entry_is(#[trigger] catalog@[j], plugin@, model@),
        decreases catalog@.len() - i,
    {
        let e = &catalog[i];
        if str_equal(e.plugin_slug.as_str(), plugin) && str_equal(e.model_slug.as_str(), model) {
            return e.model_name.clone();
        }
        i = i + 1;
    }
    let name = model.to_string();
    proof {
        vstd::string::to_string_from_display_ensures_for_str(model, name);
    }
    name
}

} // verus!
