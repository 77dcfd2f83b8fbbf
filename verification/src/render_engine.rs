//! Construction of draw commands from a laid-out document.
//!
//! The verified half of rendering: walking the box tree in paint
//! order, deciding for every box which fill color to set, which
//! rectangle to fill and which text to draw at which position. A
//! rendering back end consumes the resulting command list and issues
//! the actual page or raster calls.

use vstd::prelude::*;
use crate::color::Color;
use crate::document::{Document, DocumentModel};
use crate::element::spec_font_name;
use crate::fixed::{sat64, sat_add, sat_sub};
use crate::font::spec_text_bounding_box;
use crate::layout_engine::{Element, TEXT_FONT_SIZE};
use crate::resources_manager::{FontResourceModel, ResourcesManager};
use crate::style::spec_style_get;

verus! {

use vstd::string::StringExecFns;

/// One draw command, in paint order. Fill colors are stateful: a
/// rectangle or text is painted with the fill color most recently set.
#[derive(Debug)]
pub enum DrawOp {
    /// Sets the current fill color.
    SetFillColor { color: Color },
    /// Fills the rectangle at the given page position (milli-pixels).
    FillRect { x: i64, y: i64, width: i64, height: i64 },
    /// Draws text at the given page position; `external_font` names a
    /// loaded font to use, or is absent for the built-in fallback.
    DrawText { x: i64, y: i64, text: String, font_name: String, external_font: bool },
}

/// Mathematical model of a [`DrawOp`].
#[verifier::ext_equal]
pub enum DrawOpModel {
    SetFillColor { color: Color },
    FillRect { x: i64, y: i64, width: i64, height: i64 },
    DrawText { x: i64, y: i64, text: Seq<char>, font_name: Seq<char>, external_font: bool },
}

impl View for DrawOp {
    type V = DrawOpModel;

    open spec fn view(&self) -> DrawOpModel {
        match self {
            DrawOp::SetFillColor { color } => DrawOpModel::SetFillColor { color: *color },
            DrawOp::FillRect { x, y, width, height } => DrawOpModel::FillRect {
                x: *x,
                y: *y,
                width: *width,
                height: *height,
            },
            DrawOp::DrawText { x, y, text, font_name, external_font } => DrawOpModel::DrawText {
                x: *x,
                y: *y,
                text: text@,
                font_name: font_name@,
                external_font: *external_font,
            },
        }
    }
}

/// The draw commands one box contributes: a background fill when the
/// element styles a background color (the fill color is set first only
/// when that color is opaque), and, for a text node, the text with its
/// color, positioned by the measured text box when the resolved font
/// is loaded.
pub open spec fn spec_element_ops(
    d: DocumentModel,
    fonts: Map<Seq<char>, FontResourceModel>,
    e: Element,
) -> Seq<DrawOpModel> {
    let x = e.element as int;
    let he = d.elements[x];
    let background = (match spec_style_get(he.style, "background-color"@) {
        Some(v) => (if v.color.alpha > 0 {
            seq![DrawOpModel::SetFillColor { color: v.color }]
        } else {
            Seq::<DrawOpModel>::empty()
        }) + seq![
            DrawOpModel::FillRect { x: e.x, y: e.y, width: e.width, height: e.height },
        ],
        None => Seq::<DrawOpModel>::empty(),
    });
    let text = (if he.tag == "#text"@ {
        let color_op = (match spec_style_get(he.style, "color"@) {
            Some(v) => seq![DrawOpModel::SetFillColor { color: v.color }],
            None => seq![
                DrawOpModel::SetFillColor {
                    color: Color { red: 0, green: 0, blue: 0, alpha: 255 },
                },
            ],
        });
        let should_render = (match spec_style_get(he.style, "color"@) {
            Some(v) => v.color.alpha > 0,
            None => true,
        });
        let name = spec_font_name(he);
        color_op + (if should_render {
            if fonts.contains_key(name) {
                let b = spec_text_bounding_box(
                    fonts[name].font,
                    he.text,
                    TEXT_FONT_SIZE as int,
                    true,
                );
                seq![
                    DrawOpModel::DrawText {
                        x: e.x,
                        y: sat64(e.y + sat64(b.height - b.y)) as i64,
                        text: he.text,
                        font_name: name,
                        external_font: true,
                    },
                ]
            } else {
                seq![
                    DrawOpModel::DrawText {
                        x: e.x,
                        y: e.y,
                        text: he.text,
                        font_name: name,
                        external_font: false,
                    },
                ]
            }
        } else {
            Seq::<DrawOpModel>::empty()
        })
    } else {
        Seq::<DrawOpModel>::empty()
    });
    background + text
}

/// The draw commands of a whole box subtree, in paint order: the box
/// itself, then its children in document order.
pub open spec fn spec_tree_ops(
    d: DocumentModel,
    fonts: Map<Seq<char>, FontResourceModel>,
    e: Element,
) -> Seq<DrawOpModel>
    decreases e, 1int,
{
    spec_element_ops(d, fonts, e) + spec_forest_ops(d, fonts, e.children@, e.children@.len() as int)
}

/// The draw commands of the first `n` boxes of a forest, in order.
pub open spec fn spec_forest_ops(
    d: DocumentModel,
    fonts: Map<Seq<char>, FontResourceModel>,
    cs: Seq<Element>,
    n: int,
) -> Seq<DrawOpModel>
    decreases cs, 0int, n,
{
    if n <= 0 {
        Seq::<DrawOpModel>::empty()
    } else {
        spec_forest_ops(d, fonts, cs, n - 1) + (if n <= cs.len() {
            spec_tree_ops(d, fonts, cs[n - 1])
        } else {
            Seq::<DrawOpModel>::empty()
        })
    }
}

/// Computes the draw commands for a laid-out document; see
/// [`spec_tree_ops`].
pub fn render_ops(document: &Document, resource_manager: &ResourcesManager, root: &Element) -> (r:
    Vec<DrawOp>)
    requires
        document.wf(),
        resource_manager.wf(),
        tree_in_doc(document@, *root),
    ensures
        r@.map_values(|op: DrawOp| op@) == spec_tree_ops(document@, resource_manager.fonts@, *root),
{
    let mut ops: Vec<DrawOp> = Vec::new();
    draw_element(document, resource_manager, root, &mut ops);
    proof {
        assert(ops@.map_values(|op: DrawOp| op@) =~= Seq::<DrawOpModel>::empty()
            + spec_tree_ops(document@, resource_manager.fonts@, *root));
    }
    ops
}

/// Every box of the tree refers back to an element of the document.
pub open spec fn tree_in_doc(d: DocumentModel, e: Element) -> bool
    decreases e,
{
    &&& (e.element as int) < d.elements.len()
    &&& forall|i: int|
        0 <= i < e.children@.len() ==> tree_in_doc(d, #[trigger] e.children@[i])
}

/// A laid-out tree refers back into the document it was laid out
/// from, so it is fit for rendering.
pub proof fn lemma_laid_out_tree_in_doc(
    d: DocumentModel,
    fonts: Map<Seq<char>, FontResourceModel>,
    x: int,
    e: Element,
)
    requires
        crate::document::doc_wf(d),
        0 <= x < d.elements.len(),
        crate::layout_engine::laid_out(d, fonts, x, e),
    ensures
        tree_in_doc(d, e),
    decreases e,
{
    let cs = d.elements[x].children;
    assert(crate::document::elem_wf(d, x));
    assert forall|i: int| 0 <= i < e.children@.len() implies tree_in_doc(
        d,
        #[trigger] e.children@[i],
    ) by {
        assert(0 <= (cs[i] as int) < d.elements.len());
        assert(crate::layout_engine::laid_out(d, fonts, cs[i] as int, e.children@[i]));
        lemma_laid_out_tree_in_doc(d, fonts, cs[i] as int, e.children@[i]);
    }
}

/// Appends the draw commands of one box subtree.
fn draw_element(
    document: &Document,
    resource_manager: &ResourcesManager,
    e: &Element,
    ops: &mut Vec<DrawOp>,
)
    requires
        document.wf(),
        resource_manager.wf(),
        tree_in_doc(document@, *e),
    ensures
        final(ops)@.map_values(|op: DrawOp| op@) == old(ops)@.map_values(|op: DrawOp| op@)
            + spec_tree_ops(document@, resource_manager.fonts@, *e),
    decreases *e,
{
    let ghost d = document@;
    let ghost fonts = resource_manager.fonts@;
    let html_element = document.get_element_immutable(e.element);

    // background fill
    match html_element.get_style_property("background-color") {
        Some(background_color) => {
            let color = *background_color.as_color();
            if color.alpha > 0 {
                ops.push(DrawOp::SetFillColor { color: color });
            }
            ops.push(
                DrawOp::FillRect { x: e.x, y: e.y, width: e.width, height: e.height },
            );
        },
        None => {},
    }
    // text
    if html_element.is_text_node() {
        let font_name = match html_element.get_style_property("font") {
            Some(font_prop) => font_prop.as_string().clone(),
            None => String::from_str("Arial"),
        };
        let mut should_render = true;
        match html_element.get_style_property("color") {
            Some(color_prop) => {
                let color = *color_prop.as_color();
                if color.alpha == 0 {
                    should_render = false;
                }
                ops.push(DrawOp::SetFillColor { color: color });
            },
            None => {
                ops.push(
                    DrawOp::SetFillColor {
                        color: Color { red: 0, green: 0, blue: 0, alpha: 255 },
                    },
                );
            },
        }
        if should_render {
            match resource_manager.get_font(&font_name) {
                Some(font_resource) => {
                    let text_bb = font_resource.font.get_text_bounding_box(
                        &html_element.text,
                        TEXT_FONT_SIZE,
                        true,
                    );
                    let ty = sat_add(e.y, sat_sub(text_bb.height, text_bb.y));
                    ops.push(
                        DrawOp::DrawText {
                            x: e.x,
                            y: ty,
                            text: html_element.text.clone(),
                            font_name: font_name,
                            external_font: true,
                        },
                    );
                },
                None => {
                    ops.push(
                        DrawOp::DrawText {
                            x: e.x,
                            y: e.y,
                            text: html_element.text.clone(),
                            font_name: font_name,
                            external_font: false,
                        },
                    );
                },
            }
        }
    }
    let ghost after_own = ops@;
    proof {
        assert(after_own.map_values(|op: DrawOp| op@) =~= old(ops)@.map_values(|op: DrawOp| op@)
            + spec_element_ops(d, fonts, *e));
    }
    // children, in document order
    let n = e.children.len();
    let mut i: usize = 0;
    while i < n
        invariant
            document.wf(),
            resource_manager.wf(),
            d == document@,
            fonts == resource_manager.fonts@,
            tree_in_doc(d, *e),
            n == e.children@.len(),
            i <= n,
            ops@.map_values(|op: DrawOp| op@) =~= after_own.map_values(|op: DrawOp| op@)
                + spec_forest_ops(d, fonts, e.children@, i as int),
        decreases n - i,
    {
        proof {
            vstd::std_specs::vec::axiom_vec_index_decreases(e.children, i as int);
        }
        draw_element(document, resource_manager, &e.children[i], ops);
        i += 1;
    }
    proof {
        assert(ops@.map_values(|op: DrawOp| op@) =~= old(ops)@.map_values(|op: DrawOp| op@)
            + spec_tree_ops(d, fonts, *e));
    }
}

} // verus!
