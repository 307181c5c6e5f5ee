//! Handles and plain records exchanged with the Rack engine bridge.

use vstd::prelude::*;

verus! {

/// Handle to a live module in the engine.
#[derive(Debug, Clone, Copy, PartialEq, Eq, Hash, Structural)]
pub struct ModuleId(pub i64);

/// Handle to a live cable in the engine.
#[derive(Debug, Clone, Copy, PartialEq, Eq, Hash, Structural)]
pub struct CableId(pub i64);

impl ModuleId {
    /// Decode a module handle returned by the engine: a negative handle means
    /// that nothing was created.
    pub fn from_handle(handle: i64) -> (id: Option<ModuleId>)
        ensures
            id == if handle < 0 {
                None::<ModuleId>
            } else {
                Some(ModuleId(handle))
            },
    {
        if handle < 0 {
            None
        } else {
            Some(ModuleId(handle))
        }
    }
}

impl CableId {
    /// Decode a cable handle returned by the engine: a negative handle means
    /// that no cable was made.
    pub fn from_handle(handle: i64) -> (id: Option<CableId>)
        ensures
            id == if handle < 0 {
                None::<CableId>
            } else {
                Some(CableId(handle))
            },
    {
        if handle < 0 {
            None
        } else {
            Some(CableId(handle))
        }
    }
}

/// A module type available in the catalog.
#[derive(Debug, Clone)]
pub struct CatalogEntry {
    pub plugin_slug: String,
    pub model_slug: String,
    pub model_name: String,
}

/// The text of a catalog entry.
pub ghost struct CatalogEntryView {
    pub plugin_slug: Seq<char>,
    pub model_slug: Seq<char>,
    pub model_name: Seq<char>,
}

impl View for CatalogEntry {
    type V = CatalogEntryView;

    open spec fn view(&self) -> CatalogEntryView {
        CatalogEntryView {
            plugin_slug: self.plugin_slug@,
            model_slug: self.model_slug@,
            model_name: self.model_name@,
        }
    }
}

/// The views of a sequence of catalog entries.
pub open spec fn catalog_view(entries: Seq<CatalogEntry>) -> Seq<CatalogEntryView> {
    entries.map_values(|e: CatalogEntry| e@)
}

/// A port on which a press started dragging a cable.
#[derive(Debug, Clone, Copy, PartialEq, Eq, Structural)]
pub struct PortDragInfo {
    pub port_id: i32,
    pub is_output: bool,
}

/// What the engine answered to a forwarded input event.
#[derive(Debug, Clone, Copy, PartialEq, Eq, Structural)]
pub struct EventResult {
    pub consumed: bool,
    pub port_drag: Option<PortDragInfo>,
}

/// Size of the pixel buffer handed to the engine for rendering a module of
/// at most `max_width` x `max_height` pixels (four bytes per pixel).
pub fn render_buffer_len(max_width: i32, max_height: i32) -> (len: usize)
    requires
        max_width >= 0,
        max_height >= 0,
        max_width * max_height * 4 <= i32::MAX,
    ensures
        len == max_width * max_height * 4,
{
    assert(0 <= max_width * max_height) by (nonlinear_arith)
        requires
            max_width >= 0,
            max_height >= 0,
    ;
    (max_width * max_height * 4) as usize
}

/// The result of a module render: when the engine reports success and a
/// positive size, the size and the buffer cut to `width * height * 4` bytes;
/// otherwise nothing.
pub fn render_result(ok: i32, width: i32, height: i32, pixels: Vec<u8>) -> (out: Option<
    (i32, i32, Vec<u8>),
>)
    requires
        ok != 0 && width > 0 && height > 0 ==> width * height * 4 <= i32::MAX,
    ensures
        match out {
            Some((w, h, p)) => {
                &&& ok != 0 && width > 0 && height > 0
                &&& w == width
                &&& h == height
                &&& p@ == if pixels@.len() <= width * height * 4 {
                    pixels@
                } else {
                    pixels@.subrange(0, width * height * 4)
                }
            },
            None => !(ok != 0 && width > 0 && height > 0),
        },
{
    if ok != 0 && width > 0 && height > 0 {
        assert(0 <= width * height) by (nonlinear_arith)
            requires
                width > 0,
                height > 0,
        ;
        let mut pixels = pixels;
        let n = (width * height * 4) as usize;
        pixels.truncate(n);
        Some((width, height, pixels))
    } else {
        None
    }
}

} // verus!
