//! The box-layout engine.
//!
//! The engine walks the cascaded document bottom up: a childless
//! element takes its text measurement (or zero), an element with
//! children lays each child out, stacks them vertically in document
//! order, and takes its intrinsic size from their extents. Every node
//! is then clamped by its styled size bounds and moved by its styled
//! offsets. A final top-down pass turns local coordinates into
//! page-absolute ones.
//!
//! All geometry is in milli-pixels with saturating arithmetic. The
//! result is pinned by the relations [`laid_out`] (local geometry) and
//! [`abs_positioned`] (absolute geometry).

use vstd::prelude::*;
use crate::document::{Document, DocumentModel, doc_wf, elem_wf};
use crate::element::spec_font_name;
use crate::fixed::{clamp, max64, sat64, sat_add, spec_clamp};
use crate::font::spec_text_bounding_box;
use crate::primitive_value::PrimitiveValueModel;
use crate::resources_manager::{FontResourceModel, ResourcesManager};
use crate::style::spec_style_get;

verus! {

use vstd::string::StringExecFns;

/// The nominal font size at which text nodes are measured, in
/// milli-pixels.
pub const TEXT_FONT_SIZE: i64 = 12000;

/// The result of layout for a single document element.
#[derive(Debug)]
pub struct Element {
    /// Handle of the corresponding document element.
    pub element: usize,
    /// Final width, after clamping.
    pub width: i64,
    /// Final height, after clamping.
    pub height: i64,
    /// Page-absolute position on the X axis.
    pub x: i64,
    /// Page-absolute position on the Y axis.
    pub y: i64,
    /// Position on the X axis relative to the parent.
    pub local_x: i64,
    /// Position on the Y axis relative to the parent.
    pub local_y: i64,
    /// Laid-out boxes of this element's direct children.
    pub children: Vec<Element>,
}

impl Element {
    /// A zero-sized box at the origin for the given document element.
    pub fn default(element_index: usize) -> (e: Element)
        ensures
            e.element == element_index,
            e.width == 0 && e.height == 0,
            e.x == 0 && e.y == 0,
            e.local_x == 0 && e.local_y == 0,
            e.children@.len() == 0,
    {
        Element {
            element: element_index,
            width: 0,
            height: 0,
            x: 0,
            y: 0,
            local_x: 0,
            local_y: 0,
            children: Vec::new(),
        }
    }
}

/// A handle to a laid-out element.
#[derive(Debug, Clone)]
pub struct ElementHandle {
    index: usize,
}

/// The styled dimension value of a property, if the element's
/// resolved style holds the property at all.
pub open spec fn spec_style_px(d: DocumentModel, x: int, name: Seq<char>) -> Option<int> {
    match spec_style_get(d.elements[x].style, name) {
        Some(v) => Some(v.dimension_value.value as int),
        None => None,
    }
}

/// The effective lower size bound on one axis: the styled size, else
/// the styled minimum, else zero.
pub open spec fn spec_min_size(d: DocumentModel, x: int, size: Seq<char>, min: Seq<char>) -> int {
    match spec_style_px(d, x, size) {
        Some(v) => v,
        None => match spec_style_px(d, x, min) {
            Some(v) => v,
            None => 0,
        },
    }
}

/// The effective upper size bound on one axis: the styled maximum,
/// else unbounded.
pub open spec fn spec_max_size(d: DocumentModel, x: int, max: Seq<char>) -> int {
    match spec_style_px(d, x, max) {
        Some(v) => v,
        None => i64::MAX as int,
    }
}

/// The styled offset of `left` or `top`, else zero.
pub open spec fn spec_offset(d: DocumentModel, x: int, name: Seq<char>) -> int {
    match spec_style_px(d, x, name) {
        Some(v) => v,
        None => 0,
    }
}

/// The intrinsic size of a childless element: a text node measures
/// its text with the resolved font at the nominal size (height padded
/// by the descent), anything else starts at zero.
pub open spec fn spec_leaf_size(
    d: DocumentModel,
    fonts: Map<Seq<char>, FontResourceModel>,
    x: int,
) -> (int, int) {
    if d.elements[x].tag == "#text"@ && fonts.contains_key(spec_font_name(d.elements[x])) {
        let b = spec_text_bounding_box(
            fonts[spec_font_name(d.elements[x])].font,
            d.elements[x].text,
            TEXT_FONT_SIZE as int,
            true,
        );
        (b.width as int, b.height as int)
    } else {
        (0, 0)
    }
}

/// The widest right edge among the first `n` laid-out children.
pub open spec fn spec_children_max_w(cs: Seq<Element>, n: int) -> int
    decreases n,
{
    if n <= 0 {
        0
    } else {
        let prev = spec_children_max_w(cs, n - 1);
        let v = sat64(cs[n - 1].local_x + cs[n - 1].width);
        if v > prev {
            v
        } else {
            prev
        }
    }
}

/// The lowest bottom edge among the first `n` laid-out children.
pub open spec fn spec_children_max_h(cs: Seq<Element>, n: int) -> int
    decreases n,
{
    if n <= 0 {
        0
    } else {
        let prev = spec_children_max_h(cs, n - 1);
        let v = sat64(cs[n - 1].local_y + cs[n - 1].height);
        if v > prev {
            v
        } else {
            prev
        }
    }
}

/// The local-geometry relation: `e` is the layout of document element
/// `x` before the absolute pass. Children are laid out recursively,
/// stacked vertically in document order (their local positions start
/// from their styled offsets), and the element's size is its intrinsic
/// size clamped by its styled bounds. The node's own local position is
/// set by its parent's stacking, so it is stated separately (see
/// [`Engine::process_element`]).
pub open spec fn laid_out(
    d: DocumentModel,
    fonts: Map<Seq<char>, FontResourceModel>,
    x: int,
    e: Element,
) -> bool
    decreases e,
{
    let cs = d.elements[x].children;
    &&& e.element == x
    &&& e.children@.len() == cs.len()
    &&& (forall|i: int|
        0 <= i < cs.len() ==> laid_out(d, fonts, cs[i] as int, #[trigger] e.children@[i]))
    &&& (forall|i: int|
        0 <= i < cs.len() ==> (#[trigger] e.children@[i].local_x) as int == spec_offset(
            d,
            cs[i] as int,
            "left"@,
        ))
    &&& (cs.len() > 0 ==> e.children@[0].local_y as int == spec_offset(d, cs[0] as int, "top"@))
    &&& (forall|i: int|
        1 <= i < cs.len() ==> (#[trigger] e.children@[i].local_y) as int == sat64(
            spec_offset(d, cs[i] as int, "top"@) + sat64(
                e.children@[i - 1].local_y + e.children@[i - 1].height,
            ),
        ))
    &&& e.width as int == spec_clamp(
        (if cs.len() == 0 {
            spec_leaf_size(d, fonts, x).0
        } else {
            spec_children_max_w(e.children@, cs.len() as int)
        }),
        spec_min_size(d, x, "width"@, "min-width"@),
        spec_max_size(d, x, "max-width"@),
    )
    &&& e.height as int == spec_clamp(
        (if cs.len() == 0 {
            spec_leaf_size(d, fonts, x).1
        } else {
            spec_children_max_h(e.children@, cs.len() as int)
        }),
        spec_min_size(d, x, "height"@, "min-height"@),
        spec_max_size(d, x, "max-height"@),
    )
}

/// The absolute-geometry relation: every child's page position is its
/// parent's page position plus its own local position.
pub open spec fn abs_positioned(e: Element) -> bool
    decreases e,
{
    forall|i: int|
        0 <= i < e.children@.len() ==> {
            &&& (#[trigger] e.children@[i]).x as int == sat64(e.x + e.children@[i].local_x)
            &&& e.children@[i].y as int == sat64(e.y + e.children@[i].local_y)
            &&& abs_positioned(e.children@[i])
        }
}

/// A childless element that is not a measured text node takes exactly
/// its styled size: with `width`/`height` resolved and no upper
/// bounds, the zero intrinsic size is raised to the styled values.
pub proof fn lemma_leaf_box_takes_styled_size(
    d: DocumentModel,
    fonts: Map<Seq<char>, FontResourceModel>,
    x: int,
    e: Element,
    w: int,
    h: int,
)
    requires
        laid_out(d, fonts, x, e),
        d.elements[x].children.len() == 0,
        d.elements[x].tag != "#text"@,
        spec_style_px(d, x, "width"@) == Some(w),
        spec_style_px(d, x, "height"@) == Some(h),
        spec_style_px(d, x, "max-width"@) is None,
        spec_style_px(d, x, "max-height"@) is None,
        0 <= w,
        0 <= h,
    ensures
        e.width as int == w,
        e.height as int == h,
{
    assert(spec_leaf_size(d, fonts, x) == (0int, 0int));
    assert(spec_min_size(d, x, "width"@, "min-width"@) == w);
    assert(spec_max_size(d, x, "max-width"@) == i64::MAX as int);
    assert(w <= i64::MAX);
}

/// Two siblings stack vertically in document order: without offsets of
/// their own, the second child starts at the first child's bottom
/// edge, and without size bounds on the parent its intrinsic height is
/// the sum of the two heights.
pub proof fn lemma_two_children_stack_vertically(
    d: DocumentModel,
    fonts: Map<Seq<char>, FontResourceModel>,
    x: int,
    e: Element,
    h0: int,
    h1: int,
)
    requires
        laid_out(d, fonts, x, e),
        d.elements[x].children.len() == 2,
        spec_offset(d, d.elements[x].children[0] as int, "top"@) == 0,
        spec_offset(d, d.elements[x].children[1] as int, "top"@) == 0,
        e.children@[0].height as int == h0,
        e.children@[1].height as int == h1,
        0 <= h0,
        0 <= h1,
        h0 + h1 <= i64::MAX,
        spec_style_px(d, x, "height"@) is None,
        spec_style_px(d, x, "min-height"@) is None,
        spec_style_px(d, x, "max-height"@) is None,
    ensures
        e.children@[0].local_y == 0,
        e.children@[1].local_y as int == h0,
        e.height as int == h0 + h1,
{
    let cs = e.children@;
    assert(cs[0].local_y as int == spec_offset(d, d.elements[x].children[0] as int, "top"@));
    assert(cs[1].local_y as int == sat64(
        spec_offset(d, d.elements[x].children[1] as int, "top"@) + sat64(
            cs[0].local_y + cs[0].height,
        ),
    ));
    assert(cs[1].local_y as int == h0);
    assert(spec_children_max_h(cs, 2) == h0 + h1) by {
        assert(spec_children_max_h(cs, 0) == 0);
        assert(spec_children_max_h(cs, 1) == sat64(cs[0].local_y + cs[0].height));
        assert(sat64(cs[1].local_y + cs[1].height) == h0 + h1);
    }
    assert(spec_min_size(d, x, "height"@, "min-height"@) == 0);
    assert(spec_max_size(d, x, "max-height"@) == i64::MAX as int);
}

/// Local offsets accumulate through the absolute pass: a box two
/// levels below an ancestor lands at the ancestor's page position
/// shifted by both levels' local contributions.
pub proof fn lemma_nested_offsets_accumulate(e: Element, i: int, j: int)
    requires
        abs_positioned(e),
        0 <= i < e.children@.len(),
        0 <= j < e.children@[i].children@.len(),
    ensures
        e.children@[i].y as int == sat64(e.y + e.children@[i].local_y),
        e.children@[i].children@[j].y as int == sat64(
            sat64(e.y + e.children@[i].local_y) + e.children@[i].children@[j].local_y,
        ),
{
    assert(abs_positioned(e.children@[i]));
}

/// Two layout trees that agree on everything but absolute positions.
pub open spec fn same_except_abs(e1: Element, e2: Element) -> bool
    decreases e2,
{
    &&& e2.element == e1.element
    &&& e2.width == e1.width
    &&& e2.height == e1.height
    &&& e2.local_x == e1.local_x
    &&& e2.local_y == e1.local_y
    &&& e2.children@.len() == e1.children@.len()
    &&& forall|i: int|
        0 <= i < e2.children@.len() ==> same_except_abs(
            e1.children@[i],
            #[trigger] e2.children@[i],
        )
}

/// Local geometry only reads the fields the absolute pass leaves
/// alone, so it survives that pass.
pub proof fn lemma_laid_out_same_except_abs(
    d: DocumentModel,
    fonts: Map<Seq<char>, FontResourceModel>,
    x: int,
    e1: Element,
    e2: Element,
)
    requires
        laid_out(d, fonts, x, e1),
        same_except_abs(e1, e2),
    ensures
        laid_out(d, fonts, x, e2),
    decreases e2,
{
    let cs = d.elements[x].children;
    assert forall|i: int| 0 <= i < cs.len() implies laid_out(
        d,
        fonts,
        cs[i] as int,
        #[trigger] e2.children@[i],
    ) by {
        lemma_laid_out_same_except_abs(d, fonts, cs[i] as int, e1.children@[i], e2.children@[i]);
    }
    assert(spec_children_max_w(e2.children@, cs.len() as int) == spec_children_max_w(
        e1.children@,
        cs.len() as int,
    )) by {
        lemma_children_extents_same(e1.children@, e2.children@, cs.len() as int);
    }
    assert(spec_children_max_h(e2.children@, cs.len() as int) == spec_children_max_h(
        e1.children@,
        cs.len() as int,
    )) by {
        lemma_children_extents_same(e1.children@, e2.children@, cs.len() as int);
    }
    assert forall|i: int| 0 <= i < cs.len() implies (#[trigger] e2.children@[i].local_x) as int
        == spec_offset(d, cs[i] as int, "left"@) by {
        assert(same_except_abs(e1.children@[i], e2.children@[i]));
        assert(e2.children@[i].local_x == e1.children@[i].local_x);
    }
    if cs.len() > 0 {
        assert(same_except_abs(e1.children@[0], e2.children@[0]));
        assert(e2.children@[0].local_y == e1.children@[0].local_y);
    }
    assert forall|i: int| 1 <= i < cs.len() implies (#[trigger] e2.children@[i].local_y) as int
        == sat64(
        spec_offset(d, cs[i] as int, "top"@) + sat64(
            e2.children@[i - 1].local_y + e2.children@[i - 1].height,
        ),
    ) by {
        assert(same_except_abs(e1.children@[i], e2.children@[i]));
        assert(same_except_abs(e1.children@[i - 1], e2.children@[i - 1]));
        assert(e2.children@[i].local_y == e1.children@[i].local_y);
        assert(e2.children@[i - 1].local_y == e1.children@[i - 1].local_y);
        assert(e2.children@[i - 1].height == e1.children@[i - 1].height);
    }
}

/// Child extents agree between trees that differ only in absolute
/// positions.
proof fn lemma_children_extents_same(cs1: Seq<Element>, cs2: Seq<Element>, n: int)
    requires
        cs1.len() == cs2.len(),
        forall|i: int| 0 <= i < cs2.len() ==> same_except_abs(cs1[i], #[trigger] cs2[i]),
        n <= cs1.len(),
    ensures
        spec_children_max_w(cs2, n) == spec_children_max_w(cs1, n),
        spec_children_max_h(cs2, n) == spec_children_max_h(cs1, n),
    decreases n,
{
    if n > 0 {
        lemma_children_extents_same(cs1, cs2, n - 1);
        assert(same_except_abs(cs1[n - 1], cs2[n - 1]));
    }
}

/// The layout engine over one cascaded document and its resolved
/// fonts.
pub struct Engine<'a> {
    document: &'a Document,
    resource_manager: &'a ResourcesManager,
}

impl<'a> Engine<'a> {
    /// The document being laid out.
    pub closed spec fn doc(&self) -> DocumentModel {
        self.document@
    }

    /// The resolved font table.
    pub closed spec fn fonts(&self) -> Map<Seq<char>, FontResourceModel> {
        self.resource_manager.fonts@
    }

    /// The engine's inputs are well formed.
    pub closed spec fn wf(&self) -> bool {
        &&& self.document.wf()
        &&& self.resource_manager.wf()
    }

    /// An engine over the given document and resources.
    pub fn new(document: &'a Document, resource_manager: &'a ResourcesManager) -> (engine: Engine<
        'a,
    >)
        requires
            document.wf(),
            resource_manager.wf(),
        ensures
            engine.doc() == document@,
            engine.fonts() == resource_manager.fonts@,
            engine.wf(),
    {
        Engine { document: document, resource_manager: resource_manager }
    }

    /// Lays the whole document out: the root box carries the local
    /// geometry of [`laid_out`], takes its own local position as its
    /// page position, and every descendant's page position follows
    /// [`abs_positioned`].
    pub fn process_document(&self) -> (root: Element)
        requires
            self.wf(),
        ensures
            laid_out(self.doc(), self.fonts(), self.doc().root as int, root),
            root.local_x as int == spec_offset(self.doc(), self.doc().root as int, "left"@),
            root.local_y as int == spec_offset(self.doc(), self.doc().root as int, "top"@),
            root.x == root.local_x,
            root.y == root.local_y,
            abs_positioned(root),
    {
        let root_index = self.document.get_root_index();
        proof {
            assert(doc_wf(self.doc()));
        }
        let root_laid = self.process_element(root_index);
        let ghost before = root_laid;
        let Element { element, width, height, x: _x, y: _y, local_x, local_y, children } =
            root_laid;
        let new_children = self.adjust_children_position(local_x, local_y, root_index, children);
        let root_element = Element {
            element: element,
            width: width,
            height: height,
            x: local_x,
            y: local_y,
            local_x: local_x,
            local_y: local_y,
            children: new_children,
        };
        proof {
            lemma_same_except_abs_refl_whole(root_laid, root_element);
            lemma_laid_out_same_except_abs(
                self.doc(),
                self.fonts(),
                self.doc().root as int,
                root_laid,
                root_element,
            );
        }
        root_element
    }

    /// Lays out one element subtree in local coordinates; see
    /// [`laid_out`].
    pub fn process_element(&self, element_index: usize) -> (e: Element)
        requires
            self.wf(),
            element_index < self.doc().elements.len(),
        ensures
            laid_out(self.doc(), self.fonts(), element_index as int, e),
            e.local_x as int == spec_offset(self.doc(), element_index as int, "left"@),
            e.local_y as int == spec_offset(self.doc(), element_index as int, "top"@),
        decreases self.doc().elements.len() - element_index, 1int,
    {
        let has_children = self.document.get_element_immutable(element_index).children.len() > 0;
        if !has_children {
            self.process_lonely_element(element_index)
        } else {
            self.process_crowded_element(element_index)
        }
    }

    /// Lays out an element with no children.
    fn process_lonely_element(&self, element_index: usize) -> (e: Element)
        requires
            self.wf(),
            element_index < self.doc().elements.len(),
            self.doc().elements[element_index as int].children.len() == 0,
        ensures
            laid_out(self.doc(), self.fonts(), element_index as int, e),
            e.local_x as int == spec_offset(self.doc(), element_index as int, "left"@),
            e.local_y as int == spec_offset(self.doc(), element_index as int, "top"@),
    {
        let mut width: i64 = 0;
        let mut height: i64 = 0;
        let element = self.document.get_element_immutable(element_index);
        if element.is_text_node() {
            let line_height: i64 = 0;
            let font_name = self.get_font_name(element_index);
            match self.resource_manager.get_font(&font_name) {
                Some(font_resource) => {
                    let text_box = font_resource.font.get_text_bounding_box(
                        &element.text,
                        TEXT_FONT_SIZE,
                        true,
                    );
                    width = text_box.width;
                    height = sat_add(text_box.height, line_height);
                },
                None => {},
            }
        }
        let mut elem = Element {
            element: element_index,
            width: width,
            height: height,
            x: 0,
            y: 0,
            local_x: 0,
            local_y: 0,
            children: Vec::new(),
        };
        self.clamp_element_size(element_index, &mut elem);
        self.adjust_element_position(element_index, &mut elem);
        proof {
            assert(elem.children@.len() == 0);
        }
        elem
    }

    /// Lays out an element with children: each child first, then the
    /// vertical stacking and the intrinsic size.
    #[verifier::rlimit(100)]
    fn process_crowded_element(&self, element_index: usize) -> (e: Element)
        requires
            self.wf(),
            element_index < self.doc().elements.len(),
            self.doc().elements[element_index as int].children.len() > 0,
        ensures
            laid_out(self.doc(), self.fonts(), element_index as int, e),
            e.local_x as int == spec_offset(self.doc(), element_index as int, "left"@),
            e.local_y as int == spec_offset(self.doc(), element_index as int, "top"@),
        decreases self.doc().elements.len() - element_index, 0int,
    {
        let ghost d = self.doc();
        let ghost cs = d.elements[element_index as int].children;
        proof {
            assert(elem_wf(d, element_index as int));
        }
        let children_num = self.document.get_element_immutable(element_index).children.len();
        let mut children: Vec<Element> = Vec::new();
        let mut idx: usize = 0;
        while idx < children_num
            invariant
                self.wf(),
                element_index < d.elements.len(),
                d == self.doc(),
                cs == d.elements[element_index as int].children,
                elem_wf(d, element_index as int),
                children_num == cs.len(),
                idx <= children_num,
                children@.len() == idx,
                forall|i: int|
                    0 <= i < idx ==> laid_out(d, self.fonts(), cs[i] as int, #[trigger] children@[i]),
                forall|i: int|
                    0 <= i < idx ==> (#[trigger] children@[i].local_x) as int == spec_offset(
                        d,
                        cs[i] as int,
                        "left"@,
                    ),
                forall|i: int|
                    0 <= i < idx ==> (#[trigger] children@[i].local_y) as int == spec_offset(
                        d,
                        cs[i] as int,
                        "top"@,
                    ),
            decreases children_num - idx,
        {
            let child_handle = self.document.get_element_immutable(element_index).children[idx];
            let child = self.process_element(child_handle);
            proof {
                assert(laid_out(d, self.fonts(), cs[idx as int] as int, child));
            }
            children.push(child);
            idx += 1;
        }
        // stack the children vertically in document order
        let mut idx: usize = 1;
        while idx < children_num
            invariant
                self.wf(),
                element_index < d.elements.len(),
                d == self.doc(),
                cs == d.elements[element_index as int].children,
                elem_wf(d, element_index as int),
                children_num == cs.len(),
                1 <= idx <= children_num || children_num == 0,
                children@.len() == children_num,
                forall|i: int|
                    0 <= i < children_num ==> laid_out(
                        d,
                        self.fonts(),
                        cs[i] as int,
                        #[trigger] children@[i],
                    ),
                forall|i: int|
                    0 <= i < children_num ==> (#[trigger] children@[i].local_x) as int
                        == spec_offset(d, cs[i] as int, "left"@),
                children_num > 0 ==> children@[0].local_y as int == spec_offset(
                    d,
                    cs[0] as int,
                    "top"@,
                ),
                forall|i: int|
                    1 <= i < idx ==> (#[trigger] children@[i].local_y) as int == sat64(
                        spec_offset(d, cs[i] as int, "top"@) + sat64(
                            children@[i - 1].local_y + children@[i - 1].height,
                        ),
                    ),
                forall|i: int|
                    idx <= i < children_num ==> (#[trigger] children@[i].local_y) as int
                        == spec_offset(d, cs[i] as int, "top"@),
            decreases children_num - idx,
        {
            let ghost before = children@;
            let y = sat_add(children[idx - 1].local_y, children[idx - 1].height);
            let new_local_y = sat_add(children[idx].local_y, y);
            children[idx].local_y = new_local_y;
            proof {
                assert forall|i: int| 0 <= i < children_num implies laid_out(
                    d,
                    self.fonts(),
                    cs[i] as int,
                    #[trigger] children@[i],
                ) by {
                    if i != idx as int {
                        assert(children@[i] == before[i]);
                    } else {
                        lemma_laid_out_local_y(
                            d,
                            self.fonts(),
                            cs[i] as int,
                            before[i],
                            children@[i],
                        );
                    }
                }
            }
            idx += 1;
        }
        // the intrinsic size is the extent of the stacked children
        let mut width: i64 = 0;
        let mut height: i64 = 0;
        let mut idx: usize = 0;
        while idx < children_num
            invariant
                children@.len() == children_num,
                idx <= children_num,
                width as int == spec_children_max_w(children@, idx as int),
                height as int == spec_children_max_h(children@, idx as int),
            decreases children_num - idx,
        {
            width = max64(width, sat_add(children[idx].local_x, children[idx].width));
            height = max64(height, sat_add(children[idx].local_y, children[idx].height));
            idx += 1;
        }
        let mut elem = Element {
            element: element_index,
            width: width,
            height: height,
            x: 0,
            y: 0,
            local_x: 0,
            local_y: 0,
            children: children,
        };
        self.clamp_element_size(element_index, &mut elem);
        self.adjust_element_position(element_index, &mut elem);
        elem
    }

    /// The styled dimension of a property, or the given fallback.
    fn get_dimension_or(&self, element_index: usize, name: &str, default: i64) -> (r: i64)
        requires
            self.wf(),
            element_index < self.doc().elements.len(),
        ensures
            r as int == (match spec_style_px(self.doc(), element_index as int, name@) {
                Some(v) => v,
                None => default as int,
            }),
    {
        let element = self.document.get_element_immutable(element_index);
        match element.get_style_property(name) {
            Some(prop_value) => prop_value.as_dimension_value().value,
            None => default,
        }
    }

    /// Clamps a box's width and height into the styled bounds of the
    /// corresponding document element: `width`/`height` (or the `min-`
    /// properties) as the lower bound, the `max-` properties as the
    /// upper bound.
    fn clamp_element_size(&self, element_index: usize, element: &mut Element)
        requires
            self.wf(),
            element_index < self.doc().elements.len(),
        ensures
            final(element).width as int == spec_clamp(
                old(element).width as int,
                spec_min_size(self.doc(), element_index as int, "width"@, "min-width"@),
                spec_max_size(self.doc(), element_index as int, "max-width"@),
            ),
            final(element).height as int == spec_clamp(
                old(element).height as int,
                spec_min_size(self.doc(), element_index as int, "height"@, "min-height"@),
                spec_max_size(self.doc(), element_index as int, "max-height"@),
            ),
            *final(element) == (Element {
                width: final(element).width,
                height: final(element).height,
                ..*old(element)
            }),
    {
        // width and height effectively work like minimum sizes here:
        // try them first, then the explicit minimum properties
        let min_width_fallback = self.get_dimension_or(element_index, "min-width", 0);
        let min_width = self.get_dimension_or(element_index, "width", min_width_fallback);
        let max_width = self.get_dimension_or(element_index, "max-width", i64::MAX);
        let min_height_fallback = self.get_dimension_or(element_index, "min-height", 0);
        let min_height = self.get_dimension_or(element_index, "height", min_height_fallback);
        let max_height = self.get_dimension_or(element_index, "max-height", i64::MAX);
        element.width = clamp(element.width, min_width, max_width);
        element.height = clamp(element.height, min_height, max_height);
    }

    /// Moves a box by the `left` and `top` style offsets of the
    /// corresponding document element.
    fn adjust_element_position(&self, element_index: usize, element: &mut Element)
        requires
            self.wf(),
            element_index < self.doc().elements.len(),
        ensures
            final(element).local_x as int == sat64(
                old(element).local_x + spec_offset(self.doc(), element_index as int, "left"@),
            ),
            final(element).local_y as int == sat64(
                old(element).local_y + spec_offset(self.doc(), element_index as int, "top"@),
            ),
            *final(element) == (Element {
                local_x: final(element).local_x,
                local_y: final(element).local_y,
                ..*old(element)
            }),
    {
        let element_ref = self.document.get_element_immutable(element_index);
        match element_ref.get_style_property("left") {
            Some(left_prop) => {
                let left = left_prop.as_dimension_value().value;
                element.local_x = sat_add(element.local_x, left);
            },
            None => {
                proof {
                    assert(sat64(old(element).local_x + 0) == old(element).local_x as int);
                }
            },
        }
        match element_ref.get_style_property("top") {
            Some(top_prop) => {
                let top = top_prop.as_dimension_value().value;
                element.local_y = sat_add(element.local_y, top);
            },
            None => {},
        }
    }

    /// Sets each box's page position from the parent origin, and so
    /// on down the tree: each box lands at `(parent_x + local_x,
    /// parent_y + local_y)`.
    fn adjust_children_position(
        &self,
        parent_x: i64,
        parent_y: i64,
        element_index: usize,
        children: Vec<Element>,
    ) -> (r: Vec<Element>)
        requires
            self.wf(),
            element_index < self.doc().elements.len(),
            children@.len() == self.doc().elements[element_index as int].children.len(),
            forall|i: int|
                0 <= i < children@.len() ==> laid_out(
                    self.doc(),
                    self.fonts(),
                    self.doc().elements[element_index as int].children[i] as int,
                    #[trigger] children@[i],
                ),
        ensures
            r@.len() == children@.len(),
            forall|i: int|
                0 <= i < r@.len() ==> {
                    &&& same_except_abs(children@[i], #[trigger] r@[i])
                    &&& laid_out(
                        self.doc(),
                        self.fonts(),
                        self.doc().elements[element_index as int].children[i] as int,
                        r@[i],
                    )
                    &&& r@[i].x as int == sat64(parent_x + r@[i].local_x)
                    &&& r@[i].y as int == sat64(parent_y + r@[i].local_y)
                    &&& abs_positioned(r@[i])
                },
        decreases self.doc().elements.len() - element_index,
    {
        let ghost d = self.doc();
        let ghost cs = d.elements[element_index as int].children;
        let ghost orig = children@;
        proof {
            assert(doc_wf(d));
            assert(elem_wf(d, element_index as int));
        }
        let mut remaining = children;
        let mut result: Vec<Element> = Vec::new();
        let n = remaining.len();
        let mut idx: usize = 0;
        while idx < n
            invariant
                self.wf(),
                d == self.doc(),
                element_index < d.elements.len(),
                cs == d.elements[element_index as int].children,
                elem_wf(d, element_index as int),
                n == orig.len(),
                n == cs.len(),
                idx <= n,
                remaining@ =~= orig.skip(idx as int),
                result@.len() == idx,
                forall|i: int|
                    0 <= i < n ==> laid_out(d, self.fonts(), cs[i] as int, #[trigger] orig[i]),
                forall|i: int|
                    0 <= i < idx ==> {
                        &&& same_except_abs(orig[i], #[trigger] result@[i])
                        &&& laid_out(d, self.fonts(), cs[i] as int, result@[i])
                        &&& result@[i].x as int == sat64(parent_x + result@[i].local_x)
                        &&& result@[i].y as int == sat64(parent_y + result@[i].local_y)
                        &&& abs_positioned(result@[i])
                    },
            decreases n - idx,
        {
            let child_handle = self.document.get_element_immutable(element_index).children[idx];
            let mut child = remaining.remove(0);
            proof {
                assert(child == orig[idx as int]);
                assert(remaining@ =~= orig.skip(idx + 1));
                assert(cs[idx as int] == child_handle);
                assert(laid_out(d, self.fonts(), child_handle as int, child));
            }
            let cx = sat_add(parent_x, child.local_x);
            let cy = sat_add(parent_y, child.local_y);
            child.x = cx;
            child.y = cy;
            let ghost mid = child;
            proof {
                assert(mid == (Element { x: mid.x, y: mid.y, ..orig[idx as int] }));
                assert(mid.children@ == orig[idx as int].children@);
                assert(laid_out(d, self.fonts(), child_handle as int, mid)) by {
                    lemma_laid_out_abs_only(
                        d,
                        self.fonts(),
                        child_handle as int,
                        orig[idx as int],
                        mid,
                    );
                }
            }
            let Element { element, width, height, x, y, local_x, local_y, children: grand } =
                child;
            let new_grand = self.adjust_children_position(x, y, element, grand);
            let done = Element {
                element: element,
                width: width,
                height: height,
                x: x,
                y: y,
                local_x: local_x,
                local_y: local_y,
                children: new_grand,
            };
            proof {
                lemma_same_except_abs_refl(orig[idx as int], mid);
                lemma_same_except_abs_refl_whole(mid, done);
                lemma_same_except_abs_trans(orig[idx as int], mid, done);
                lemma_laid_out_same_except_abs(d, self.fonts(), child_handle as int, mid, done);
                assert(abs_positioned(done)) by {
                    assert forall|j: int| 0 <= j < done.children@.len() implies {
                        &&& (#[trigger] done.children@[j]).x as int == sat64(
                            done.x + done.children@[j].local_x,
                        )
                        &&& done.children@[j].y as int == sat64(done.y + done.children@[j].local_y)
                        &&& abs_positioned(done.children@[j])
                    } by {}
                }
            }
            result.push(done);
            idx += 1;
        }
        result
    }

    /// The resolved font name of an element: its `font` style
    /// property, or `"Arial"`.
    pub fn get_font_name(&self, element_index: usize) -> (r: String)
        requires
            self.wf(),
            element_index < self.doc().elements.len(),
        ensures
            r@ == spec_font_name(self.doc().elements[element_index as int]),
    {
        let element = self.document.get_element_immutable(element_index);
        match element.get_style_property("font") {
            Some(font_prop) => font_prop.as_string().clone(),
            None => String::from_str("Arial"),
        }
    }
}

/// A box's subtree stays laid out when only its absolute position
/// changes.
proof fn lemma_laid_out_abs_only(
    d: DocumentModel,
    fonts: Map<Seq<char>, FontResourceModel>,
    x: int,
    e1: Element,
    e2: Element,
)
    requires
        laid_out(d, fonts, x, e1),
        e2 == (Element { x: e2.x, y: e2.y, ..e1 }),
    ensures
        laid_out(d, fonts, x, e2),
{
    assert(e2.children@ == e1.children@);
}

/// A box's subtree stays laid out when only the box's own local
/// position changes (as the parent's stacking pass does).
proof fn lemma_laid_out_local_y(
    d: DocumentModel,
    fonts: Map<Seq<char>, FontResourceModel>,
    x: int,
    e1: Element,
    e2: Element,
)
    requires
        laid_out(d, fonts, x, e1),
        e2 == (Element { local_y: e2.local_y, ..e1 }),
    ensures
        laid_out(d, fonts, x, e2),
{
    assert(e2.children@ == e1.children@);
}

/// A tree relates to itself under the except-absolute relation.
proof fn lemma_same_except_abs_refl(e1: Element, e2: Element)
    requires
        e2 == (Element { x: e2.x, y: e2.y, ..e1 }),
    ensures
        same_except_abs(e1, e2),
    decreases e2,
{
    assert forall|i: int| 0 <= i < e2.children@.len() implies same_except_abs(
        e1.children@[i],
        #[trigger] e2.children@[i],
    ) by {
        lemma_same_except_abs_refl(e1.children@[i], e2.children@[i]);
    }
}

/// The except-absolute relation composes.
proof fn lemma_same_except_abs_trans(e1: Element, e2: Element, e3: Element)
    requires
        same_except_abs(e1, e2),
        same_except_abs(e2, e3),
    ensures
        same_except_abs(e1, e3),
    decreases e3,
{
    assert forall|i: int| 0 <= i < e3.children@.len() implies same_except_abs(
        e1.children@[i],
        #[trigger] e3.children@[i],
    ) by {
        lemma_same_except_abs_trans(e1.children@[i], e2.children@[i], e3.children@[i]);
    }
}

/// Pointwise child relations assemble the whole-tree relation when
/// the non-positional fields agree.
proof fn lemma_same_except_abs_refl_whole(e1: Element, e2: Element)
    requires
        e2.element == e1.element,
        e2.width == e1.width,
        e2.height == e1.height,
        e2.local_x == e1.local_x,
        e2.local_y == e1.local_y,
        e2.children@.len() == e1.children@.len(),
        forall|i: int|
            0 <= i < e2.children@.len() ==> same_except_abs(
                e1.children@[i],
                #[trigger] e2.children@[i],
            ),
    ensures
        same_except_abs(e1, e2),
{
}

} // verus!
