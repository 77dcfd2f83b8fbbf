//! The document: an arena of elements forming a single-rooted tree.
//!
//! Elements are addressed by their position in a growable list; the
//! element created first is the root. Linking always puts a child
//! under an earlier-created parent, which keeps the parent/child graph
//! acyclic by construction. The cascade pass rewrites each element's
//! resolved style from its parent's, top down.

use vstd::prelude::*;
use crate::element::{Element, ElementModel, spec_tag_defaults, spec_apply_decls};
use crate::parser::{parse_inline, spec_parse_inline};
use crate::primitive_value::{PrimitiveValue, PrimitiveValueModel};
use crate::style::{ElementStyleProperties, StyleModel, spec_merged, spec_style_get};

verus! {

use vstd::string::StringSliceAdditionalSpecFns;
use vstd::string::StringExecFns;

/// The document arena.
#[derive(Debug)]
pub struct Document {
    /// Index of the root element in the `elements` list.
    root: usize,
    /// A flat list of all elements ever created by this document.
    elements: Vec<Element>,
}

/// Mathematical model of a [`Document`].
#[verifier::ext_equal]
pub struct DocumentModel {
    pub root: usize,
    pub elements: Seq<ElementModel>,
}

impl View for Document {
    type V = DocumentModel;

    closed spec fn view(&self) -> DocumentModel {
        DocumentModel {
            root: self.root,
            elements: self.elements@.map_values(|e: Element| e@),
        }
    }
}

/// Structural well-formedness of one element of the arena: it knows
/// its own handle, its parent was created before it, and parent and
/// child links agree.
pub open spec fn elem_wf(d: DocumentModel, i: int) -> bool {
    let e = d.elements[i];
    &&& e.index == i
    &&& (e.has_parent ==> (e.parent as int) < i && d.elements[e.parent as int].children.contains(
        e.index,
    ))
    &&& (forall|j: int|
        0 <= j < e.children.len() ==> i < (#[trigger] e.children[j] as int)
            < d.elements.len() && d.elements[e.children[j] as int].has_parent && (d.elements[
            e.children[j] as int].parent as int) == i)
    &&& (forall|a: int, b: int|
        0 <= a < b < e.children.len() ==> e.children[a] != e.children[b])
}

/// Structural well-formedness of the arena: a single root at handle
/// zero, every element well formed.
pub open spec fn doc_wf(d: DocumentModel) -> bool {
    &&& d.root == 0
    &&& 1 <= d.elements.len()
    &&& forall|i: int| 0 <= i < d.elements.len() ==> #[trigger] elem_wf(d, i)
}

/// Whether `x` lies in the subtree rooted at `start` (following parent
/// links upwards).
pub open spec fn in_subtree(d: DocumentModel, start: int, x: int) -> bool
    decreases x,
{
    if x == start {
        true
    } else if 0 <= x < d.elements.len() && d.elements[x].has_parent && 0 <= (d.elements[x].parent
        as int) < x {
        in_subtree(d, start, d.elements[x].parent as int)
    } else {
        false
    }
}

/// The style of element `x` after a cascade starting at `start`: a
/// strict descendant of `start` takes the merge of its own style with
/// its parent's cascaded style; everything else keeps its style.
pub open spec fn spec_cascaded(d: DocumentModel, start: int, x: int) -> StyleModel
    decreases x,
{
    if !(0 <= x < d.elements.len()) || x == start || !in_subtree(d, start, x) {
        d.elements[x].style
    } else if d.elements[x].has_parent && 0 <= (d.elements[x].parent as int) < x {
        StyleModel {
            auth: spec_merged(
                d.elements[x].style,
                spec_cascaded(d, start, d.elements[x].parent as int),
            ),
            dflt: Map::<Seq<char>, PrimitiveValueModel>::empty(),
        }
    } else {
        d.elements[x].style
    }
}

/// The nearest value of a property on `x` or its ancestors, if any.
pub open spec fn spec_ancestor_style_lookup(d: DocumentModel, x: int, name: Seq<char>) -> Option<
    PrimitiveValueModel,
>
    decreases x,
{
    if !(0 <= x < d.elements.len()) {
        None
    } else if spec_style_get(d.elements[x].style, name) is Some {
        spec_style_get(d.elements[x].style, name)
    } else if d.elements[x].has_parent && 0 <= (d.elements[x].parent as int) < x {
        spec_ancestor_style_lookup(d, d.elements[x].parent as int, name)
    } else {
        None
    }
}

/// Two arenas agree on everything but element styles.
pub open spec fn same_structure(d1: DocumentModel, d2: DocumentModel) -> bool {
    &&& d1.root == d2.root
    &&& d1.elements.len() == d2.elements.len()
    &&& forall|i: int|
        0 <= i < d1.elements.len() ==> #[trigger] d2.elements[i] == ElementModel {
            style: d2.elements[i].style,
            ..d1.elements[i]
        }
}

/// A subtree member never precedes the subtree's root in the arena.
pub proof fn lemma_in_subtree_le(d: DocumentModel, start: int, x: int)
    requires
        in_subtree(d, start, x),
    ensures
        start <= x,
    decreases x,
{
    if x != start {
        lemma_in_subtree_le(d, start, d.elements[x].parent as int);
    }
}

/// Subtree membership only reads the arena's structure.
pub proof fn lemma_in_subtree_same_structure(d1: DocumentModel, d2: DocumentModel, start: int, x: int)
    requires
        same_structure(d1, d2),
    ensures
        in_subtree(d1, start, x) == in_subtree(d2, start, x),
    decreases (if x >= 0 { x } else { 0 }),
{
    if x != start && 0 <= x < d1.elements.len() && d1.elements[x].has_parent && 0 <= (d1.elements[
    x].parent as int) < x {
        lemma_in_subtree_same_structure(d1, d2, start, d1.elements[x].parent as int);
    }
}

/// Subtrees nest: a subtree of a descendant stays inside the ancestor's.
pub proof fn lemma_in_subtree_trans(d: DocumentModel, start: int, c: int, x: int)
    requires
        in_subtree(d, c, x),
        in_subtree(d, start, c),
    ensures
        in_subtree(d, start, x),
    decreases (if x >= 0 { x } else { 0 }),
{
    if x != c {
        lemma_in_subtree_le(d, c, x);
        lemma_in_subtree_trans(d, start, c, d.elements[x].parent as int);
    }
}

/// Two subtrees meet only when one root descends from the other.
pub proof fn lemma_in_subtree_linear(d: DocumentModel, c1: int, c2: int, x: int)
    requires
        in_subtree(d, c1, x),
        in_subtree(d, c2, x),
    ensures
        in_subtree(d, c1, c2) || in_subtree(d, c2, c1),
    decreases (if x >= 0 { x } else { 0 }),
{
    if x == c1 {
    } else if x == c2 {
    } else {
        lemma_in_subtree_le(d, c1, x);
        lemma_in_subtree_linear(d, c1, c2, d.elements[x].parent as int);
    }
}

/// Subtrees of two distinct children of one parent are disjoint.
pub proof fn lemma_child_subtrees_disjoint(d: DocumentModel, e: int, c1: usize, c2: usize, x: int)
    requires
        doc_wf(d),
        0 <= e < d.elements.len(),
        d.elements[e].children.contains(c1),
        d.elements[e].children.contains(c2),
        c1 != c2,
        in_subtree(d, c1 as int, x),
    ensures
        !in_subtree(d, c2 as int, x),
{
    if in_subtree(d, c2 as int, x) {
        lemma_in_subtree_linear(d, c1 as int, c2 as int, x);
        assert(elem_wf(d, e));
        let j1 = choose|j: int|
            0 <= j < d.elements[e].children.len() && d.elements[e].children[j] == c1;
        let j2 = choose|j: int|
            0 <= j < d.elements[e].children.len() && d.elements[e].children[j] == c2;
        assert(e < (d.elements[e].children[j1] as int) < d.elements.len() && d.elements[d.elements[
        e].children[j1] as int].has_parent && (d.elements[d.elements[e].children[j1] as int].parent
            as int) == e);
        assert(e < (d.elements[e].children[j2] as int) < d.elements.len() && d.elements[d.elements[
        e].children[j2] as int].has_parent && (d.elements[d.elements[e].children[j2] as int].parent
            as int) == e);
        assert(e < (c1 as int) && e < (c2 as int));
        assert(d.elements[c1 as int].has_parent && (d.elements[c1 as int].parent as int) == e);
        assert(d.elements[c2 as int].has_parent && (d.elements[c2 as int].parent as int) == e);
        if in_subtree(d, c1 as int, c2 as int) {
            assert(in_subtree(d, c1 as int, e));
            lemma_in_subtree_le(d, c1 as int, e);
        } else {
            assert(in_subtree(d, c2 as int, c1 as int));
            assert(in_subtree(d, c2 as int, e));
            lemma_in_subtree_le(d, c2 as int, e);
        }
    }
}

/// Every strict member of a subtree is reached through one of the
/// subtree root's children.
pub proof fn lemma_child_on_chain(d: DocumentModel, start: int, x: int)
    requires
        doc_wf(d),
        in_subtree(d, start, x),
        x != start,
        0 <= start,
    ensures
        exists|c: usize|
            d.elements[start].children.contains(c) && in_subtree(d, c as int, x) && start < (
            c as int) < d.elements.len(),
    decreases x,
{
    let p = d.elements[x].parent as int;
    assert(elem_wf(d, x));
    if p == start {
        assert(d.elements[start].children.contains(x as usize)) by {
            assert(d.elements[x].index == x);
        }
        assert(in_subtree(d, x, x));
        assert(d.elements[start].children.contains(x as usize) && in_subtree(d, x, x) && start
            < x < d.elements.len());
    } else {
        lemma_child_on_chain(d, start, p);
        let c = choose|c: usize|
            d.elements[start].children.contains(c) && in_subtree(d, c as int, p) && start < (
            c as int) < d.elements.len();
        assert(in_subtree(d, c as int, x));
    }
}

/// A finished cascade of a subtree composes with the cascade that
/// produced its root's style: after the root's style is rewritten,
/// cascading the subtree against the middle state gives exactly the
/// styles of the outer cascade.
pub proof fn lemma_cascaded_compose(
    d_old: DocumentModel,
    d_mid: DocumentModel,
    start: int,
    c: int,
    x: int,
)
    requires
        doc_wf(d_old),
        same_structure(d_old, d_mid),
        0 <= c < d_old.elements.len(),
        c != start,
        in_subtree(d_old, start, c),
        d_mid.elements[c].style == spec_cascaded(d_old, start, c),
        forall|y: int|
            0 <= y < d_old.elements.len() && y != c && in_subtree(d_old, c, y) ==> d_mid.elements[
            y].style == d_old.elements[y].style,
        in_subtree(d_old, c, x),
        0 <= x < d_old.elements.len(),
    ensures
        spec_cascaded(d_mid, c, x) == spec_cascaded(d_old, start, x),
    decreases x,
{
    lemma_in_subtree_same_structure(d_old, d_mid, c, x);
    if x == start {
        lemma_in_subtree_le(d_old, c, x);
        lemma_in_subtree_le(d_old, start, c);
        assert(false);
    }
    if x == c {
        assert(spec_cascaded(d_mid, c, c) == d_mid.elements[c].style);
    } else {
        let p = d_old.elements[x].parent as int;
        assert(elem_wf(d_old, x));
        lemma_in_subtree_trans(d_old, start, c, x);
        lemma_cascaded_compose(d_old, d_mid, start, c, p);
        assert(d_mid.elements[x].style == d_old.elements[x].style);
        assert(in_subtree(d_mid, c, x));
        assert(spec_cascaded(d_mid, c, x) == StyleModel {
            auth: spec_merged(d_mid.elements[x].style, spec_cascaded(d_mid, c, p)),
            dflt: Map::<Seq<char>, PrimitiveValueModel>::empty(),
        });
        assert(spec_cascaded(d_old, start, x) == StyleModel {
            auth: spec_merged(d_old.elements[x].style, spec_cascaded(d_old, start, p)),
            dflt: Map::<Seq<char>, PrimitiveValueModel>::empty(),
        });
    }
}

/// After a cascade started at a parent, a child that does not author
/// an inheritable property resolves that property to the parent's
/// authored value: the property is inherited.
pub proof fn lemma_cascade_inherits(d: DocumentModel, start: int, c: int, name: Seq<char>)
    requires
        doc_wf(d),
        0 <= start < d.elements.len(),
        0 <= c < d.elements.len(),
        d.elements[c].has_parent,
        (d.elements[c].parent as int) == start,
        crate::style::spec_inheritable(name),
        d.elements[start].style.auth.contains_key(name),
        !d.elements[c].style.auth.contains_key(name),
    ensures
        spec_style_get(spec_cascaded(d, start, c), name) == Some(
            d.elements[start].style.auth[name],
        ),
{
    assert(elem_wf(d, c));
    assert(start < c);
    assert(in_subtree(d, start, c)) by {
        assert(in_subtree(d, start, start));
    }
    assert(spec_cascaded(d, start, start) == d.elements[start].style);
    let merged = spec_merged(d.elements[c].style, d.elements[start].style);
    assert(merged.contains_key(name) && merged[name] == d.elements[start].style.auth[name]);
}

/// A property outside the inheritable set never propagates: after a
/// cascade, a child that holds the property in neither of its own
/// layers resolves it to nothing, whatever the parent holds.
pub proof fn lemma_cascade_confines(d: DocumentModel, start: int, c: int, name: Seq<char>)
    requires
        doc_wf(d),
        0 <= start < d.elements.len(),
        0 <= c < d.elements.len(),
        d.elements[c].has_parent,
        (d.elements[c].parent as int) == start,
        !crate::style::spec_inheritable(name),
        !d.elements[c].style.auth.contains_key(name),
        !d.elements[c].style.dflt.contains_key(name),
    ensures
        spec_style_get(spec_cascaded(d, start, c), name) is None,
{
    assert(elem_wf(d, c));
    assert(start < c);
    assert(in_subtree(d, start, c)) by {
        assert(in_subtree(d, start, start));
    }
    let merged = spec_merged(d.elements[c].style, d.elements[start].style);
    assert(!merged.contains_key(name));
}

/// Whether `x` lies in the subtree of one of the first `j` children.
pub open spec fn covered_by_children(d: DocumentModel, children: Seq<usize>, j: int, x: int) -> bool {
    exists|k: int| 0 <= k < j && in_subtree(d, #[trigger] children[k] as int, x)
}

impl Document {
    /// The arena's maps all keep their keys unique.
    pub closed spec fn maps_wf(&self) -> bool {
        forall|i: int|
            0 <= i < self.elements@.len() ==> (#[trigger] self.elements@[i]).wf()
    }

    /// The arena is structurally well formed and its maps are sound.
    pub open spec fn wf(&self) -> bool {
        doc_wf(self@) && self.maps_wf()
    }

    /// Sets element `element_index` to be a child of element
    /// `parent_index`. The parent must have been created before the
    /// child, the child must not already hang under a different
    /// parent, and adding it twice under the same parent is a no-op.
    ///
    /// The creation-order and single-link preconditions are how this
    /// arena keeps its parent/child graph acyclic and single-rooted:
    /// every chain of parent links strictly descends through earlier
    /// handles, so no sequence of calls can close a cycle or give an
    /// element two parents. They strengthen the bare self-link and
    /// range checks, and every tree-building caller (elements are
    /// created before they are linked, parents first) satisfies them.
    pub fn add_element(&mut self, element_index: usize, parent_index: usize)
        requires
            old(self).wf(),
            element_index != parent_index,
            element_index < old(self)@.elements.len(),
            parent_index < old(self)@.elements.len(),
            parent_index < element_index,
            old(self)@.elements[element_index as int].has_parent ==> old(
                self,
            )@.elements[element_index as int].parent == parent_index,
        ensures
            final(self).wf(),
            ({
                let d = old(self)@;
                if d.elements[element_index as int].has_parent {
                    final(self)@ == d
                } else {
                    final(self)@ == DocumentModel {
                        root: d.root,
                        elements: d.elements.update(
                            parent_index as int,
                            ElementModel {
                                children: d.elements[parent_index as int].children.push(
                                    element_index,
                                ),
                                ..d.elements[parent_index as int]
                            },
                        ).update(
                            element_index as int,
                            ElementModel {
                                parent: parent_index,
                                has_parent: true,
                                ..d.elements[element_index as int]
                            },
                        ),
                    }
                }
            }),
    {
        let ghost d0 = self@;
        proof {
            assert(elem_wf(d0, element_index as int));
            assert(elem_wf(d0, parent_index as int));
        }
        if self.elements[element_index].has_parent {
            // already linked (necessarily under this same parent): no-op
            return ;
        }
        self.elements[parent_index].children.push(element_index);
        self.elements[element_index].parent = parent_index;
        self.elements[element_index].has_parent = true;
        proof {
            let d = final(self)@;
            assert(d.elements =~= d0.elements.update(
                parent_index as int,
                ElementModel {
                    children: d0.elements[parent_index as int].children.push(element_index),
                    ..d0.elements[parent_index as int]
                },
            ).update(
                element_index as int,
                ElementModel {
                    parent: parent_index,
                    has_parent: true,
                    ..d0.elements[element_index as int]
                },
            ));
            assert forall|i: int| 0 <= i < d.elements.len() implies #[trigger] elem_wf(d, i) by {
                assert(elem_wf(d0, i));
                let e0 = d0.elements[i];
                let e = d.elements[i];
                if i == parent_index {
                    assert forall|j: int| 0 <= j < e.children.len() implies i < (
                    #[trigger] e.children[j] as int) < d.elements.len() && d.elements[e.children[
                    j] as int].has_parent && (d.elements[e.children[j] as int].parent as int)
                        == i by {
                        if j < e0.children.len() {
                            assert(e.children[j] == e0.children[j]);
                        } else {
                            assert(e.children[j] == element_index);
                        }
                    }
                    assert forall|a: int, b: int| 0 <= a < b < e.children.len() implies e
                        .children[a] != e.children[b] by {
                        if b < e0.children.len() {
                        } else {
                            assert(e.children[b] == element_index);
                            assert(e.children[a] == e0.children[a]);
                            if e0.children[a] == element_index {
                                assert(d0.elements[e0.children[a] as int].has_parent);
                            }
                        }
                    }
                } else if i == element_index {
                    assert(d.elements[parent_index as int].children.contains(e.index)) by {
                        let n = d0.elements[parent_index as int].children.len();
                        assert(d.elements[parent_index as int].children[n as int]
                            == element_index);
                    }
                } else {
                    assert(e.children == e0.children);
                    assert forall|j: int| 0 <= j < e.children.len() implies i < (
                    #[trigger] e.children[j] as int) < d.elements.len() && d.elements[e.children[
                    j] as int].has_parent && (d.elements[e.children[j] as int].parent as int)
                        == i by {
                        assert(d0.elements[e0.children[j] as int].has_parent);
                        assert(e0.children[j] != element_index);
                    }
                    if e.has_parent {
                        if (e.parent as int) == parent_index {
                            let cs0 = d0.elements[parent_index as int].children;
                            let j = choose|j: int| 0 <= j < cs0.len() && cs0[j] == e.index;
                            assert(d.elements[parent_index as int].children[j] == e.index);
                        }
                    }
                }
            }
        }
    }

    /// Links an element directly under the root.
    pub fn add_element_to_root(&mut self, element_index: usize)
        requires
            old(self).wf(),
            0 < element_index < old(self)@.elements.len(),
            old(self)@.elements[element_index as int].has_parent ==> old(
                self,
            )@.elements[element_index as int].parent == 0,
        ensures
            final(self).wf(),
            ({
                let d = old(self)@;
                if d.elements[element_index as int].has_parent {
                    final(self)@ == d
                } else {
                    final(self)@ == DocumentModel {
                        root: d.root,
                        elements: d.elements.update(
                            0,
                            ElementModel {
                                children: d.elements[0].children.push(element_index),
                                ..d.elements[0]
                            },
                        ).update(
                            element_index as int,
                            ElementModel {
                                parent: 0,
                                has_parent: true,
                                ..d.elements[element_index as int]
                            },
                        ),
                    }
                }
            }),
    {
        let root = self.get_root_index();
        self.add_element(element_index, root);
    }

    /// Creates a new element of the given tag, with the tag's default
    /// styling installed, and returns its handle.
    pub fn create_element(&mut self, tag: &str) -> (idx: usize)
        requires
            old(self).wf(),
        ensures
            final(self).wf(),
            idx == old(self)@.elements.len(),
            final(self)@.root == old(self)@.root,
            final(self)@.elements == old(self)@.elements.push(
                ElementModel {
                    index: idx,
                    tag: tag@,
                    text: Seq::<char>::empty(),
                    parent: 0,
                    has_parent: false,
                    children: Seq::<usize>::empty(),
                    attributes: Map::<Seq<char>, Seq<char>>::empty(),
                    style: StyleModel {
                        auth: Map::<Seq<char>, PrimitiveValueModel>::empty(),
                        dflt: spec_tag_defaults(tag@),
                    },
                },
            ),
    {
        let idx = self.elements.len();
        let mut element = Element::default();
        element.index = idx;
        element.tag = String::from_str(tag);
        element.add_default_style_properties();
        self.elements.push(element);
        proof {
            lemma_push_keeps_wf(old(self)@, final(self)@);
            assert(final(self)@.elements =~= old(self)@.elements.push(
                final(self)@.elements.last(),
            ));
        }
        idx
    }

    /// Creates a new text element carrying the given text and returns
    /// its handle.
    pub fn create_text_element(&mut self, text: &str) -> (idx: usize)
        requires
            old(self).wf(),
        ensures
            final(self).wf(),
            idx == old(self)@.elements.len(),
            final(self)@.root == old(self)@.root,
            final(self)@.elements == old(self)@.elements.push(
                ElementModel {
                    index: idx,
                    tag: "#text"@,
                    text: text@,
                    parent: 0,
                    has_parent: false,
                    children: Seq::<usize>::empty(),
                    attributes: Map::<Seq<char>, Seq<char>>::empty(),
                    style: StyleModel {
                        auth: Map::<Seq<char>, PrimitiveValueModel>::empty(),
                        dflt: spec_tag_defaults("#text"@),
                    },
                },
            ),
    {
        let idx = self.elements.len();
        let mut element = Element::default();
        element.index = idx;
        element.tag = String::from_str("#text");
        element.text = String::from_str(text);
        element.add_default_style_properties();
        self.elements.push(element);
        proof {
            lemma_push_keeps_wf(old(self)@, final(self)@);
            assert(final(self)@.elements =~= old(self)@.elements.push(
                final(self)@.elements.last(),
            ));
        }
        idx
    }

    /// The element at the given handle.
    pub fn get_element(&self, index: usize) -> (e: &Element)
        requires
            index < self@.elements.len(),
        ensures
            e@ == self@.elements[index as int],
            self.wf() ==> e.wf(),
    {
        &self.elements[index]
    }

    /// The element at the given handle.
    pub fn get_element_immutable(&self, index: usize) -> (e: &Element)
        requires
            index < self@.elements.len(),
        ensures
            e@ == self@.elements[index as int],
            self.wf() ==> e.wf(),
    {
        &self.elements[index]
    }

    /// All elements, in creation order.
    pub fn get_elements(&self) -> (es: &Vec<Element>)
        ensures
            es@.map_values(|e: Element| e@) == self@.elements,
    {
        &self.elements
    }

    /// The handle of the root element.
    pub fn get_root_index(&self) -> (r: usize)
        ensures
            r == self@.root,
    {
        self.root
    }

    /// The root element.
    pub fn get_root(&self) -> (e: &Element)
        requires
            self.wf(),
        ensures
            e@ == self@.elements[self@.root as int],
    {
        self.get_element_immutable(self.get_root_index())
    }

    /// The root element.
    pub fn get_root_immutable(&self) -> (e: &Element)
        requires
            self.wf(),
        ensures
            e@ == self@.elements[self@.root as int],
    {
        self.get_element_immutable(self.get_root_index())
    }

    /// A new document holding only a root element of tag `"root"`.
    pub fn new() -> (d: Document)
        ensures
            d.wf(),
            d@.root == 0,
            d@.elements.len() == 1,
            d@.elements[0] == (ElementModel {
                index: 0,
                tag: "root"@,
                text: Seq::<char>::empty(),
                parent: 0,
                has_parent: false,
                children: Seq::<usize>::empty(),
                attributes: Map::<Seq<char>, Seq<char>>::empty(),
                style: StyleModel {
                    auth: Map::<Seq<char>, PrimitiveValueModel>::empty(),
                    dflt: spec_tag_defaults("root"@),
                },
            }),
    {
        let mut document = Document { root: 0, elements: Vec::new() };
        proof {
            assert(document@.elements =~= Seq::<ElementModel>::empty());
        }
        document.create_element_on_empty("root");
        document
    }

    /// Creates the very first element (the root) in an empty arena.
    fn create_element_on_empty(&mut self, tag: &str)
        requires
            old(self)@.elements.len() == 0,
            old(self)@.root == 0,
            old(self).maps_wf(),
        ensures
            final(self).wf(),
            final(self)@.root == 0,
            final(self)@.elements.len() == 1,
            final(self)@.elements[0] == (ElementModel {
                index: 0,
                tag: tag@,
                text: Seq::<char>::empty(),
                parent: 0,
                has_parent: false,
                children: Seq::<usize>::empty(),
                attributes: Map::<Seq<char>, Seq<char>>::empty(),
                style: StyleModel {
                    auth: Map::<Seq<char>, PrimitiveValueModel>::empty(),
                    dflt: spec_tag_defaults(tag@),
                },
            }),
    {
        let idx = self.elements.len();
        let mut element = Element::default();
        element.index = idx;
        element.tag = String::from_str(tag);
        element.add_default_style_properties();
        self.elements.push(element);
        proof {
            let d = final(self)@;
            assert(d.elements.len() == 1);
            assert forall|i: int| 0 <= i < d.elements.len() implies #[trigger] elem_wf(d, i) by {
                assert(d.elements[0].children.len() == 0);
            }
        }
    }
}

/// Structure-only well-formedness carries across style changes.
pub proof fn lemma_wf_same_structure(d1: DocumentModel, d2: DocumentModel)
    requires
        doc_wf(d1),
        same_structure(d1, d2),
    ensures
        doc_wf(d2),
{
    assert forall|i: int| 0 <= i < d2.elements.len() implies #[trigger] elem_wf(d2, i) by {
        assert(elem_wf(d1, i));
        let e1 = d1.elements[i];
        let e2 = d2.elements[i];
        assert(e2.children == e1.children && e2.parent == e1.parent && e2.has_parent
            == e1.has_parent && e2.index == e1.index);
        if e2.has_parent {
            assert(d2.elements[e2.parent as int].children == d1.elements[e1.parent
                as int].children);
        }
        assert forall|j: int| 0 <= j < e2.children.len() implies i < (
        #[trigger] e2.children[j] as int) < d2.elements.len() && d2.elements[e2.children[
        j] as int].has_parent && (d2.elements[e2.children[j] as int].parent as int) == i by {
            assert(i < (e1.children[j] as int) < d1.elements.len());
            assert(d2.elements[e1.children[j] as int] == ElementModel {
                style: d2.elements[e1.children[j] as int].style,
                ..d1.elements[e1.children[j] as int]
            });
        }
    }
}

impl Document {
    /// Applies the element's styling to all its descendants: each
    /// child's style is rewritten to the merge of its own layers with
    /// its parent's already merged style, top down; see
    /// [`spec_cascaded`].
    pub fn cascade_element_styles(&mut self, element_index: usize)
        requires
            old(self).wf(),
            element_index < old(self)@.elements.len(),
        ensures
            final(self).wf(),
            same_structure(old(self)@, final(self)@),
            forall|x: int|
                0 <= x < old(self)@.elements.len() ==> final(self)@.elements[x].style
                    == spec_cascaded(old(self)@, element_index as int, x),
        decreases old(self)@.elements.len() - element_index,
    {
        let ghost d0 = self@;
        let ghost start = element_index as int;
        let parent_props = self.elements[element_index].style.duplicate();
        let children_num = self.elements[element_index].children.len();
        let ghost children = d0.elements[start].children;
        proof {
            assert(elem_wf(d0, start));
        }
        let mut child_index_i: usize = 0;
        while child_index_i < children_num
            invariant
                self.wf(),
                d0 == old(self)@,
                doc_wf(d0),
                start == element_index as int,
                0 <= start < d0.elements.len(),
                self@.elements.len() == d0.elements.len(),
                same_structure(d0, self@),
                children == d0.elements[start].children,
                children_num == children.len(),
                child_index_i <= children_num,
                parent_props.wf(),
                parent_props@ == d0.elements[start].style,
                elem_wf(d0, start),
                forall|x: int|
                    0 <= x < d0.elements.len() && covered_by_children(
                        d0,
                        children,
                        child_index_i as int,
                        x,
                    ) ==> #[trigger] self@.elements[x].style == spec_cascaded(d0, start, x),
                forall|x: int|
                    0 <= x < d0.elements.len() && !covered_by_children(
                        d0,
                        children,
                        child_index_i as int,
                        x,
                    ) ==> #[trigger] self@.elements[x].style == d0.elements[x].style,
            decreases children_num - child_index_i,
        {
            let ghost i = child_index_i as int;
            proof {
                assert(self@.elements[start] == ElementModel {
                    style: self@.elements[start].style,
                    ..d0.elements[start]
                });
                assert(self@.elements[start].children == children);
                assert(self.elements@[start]@ == self@.elements[start]);
            }
            let child_index = self.elements[element_index].children[child_index_i];
            proof {
                assert(children[i] == child_index);
                assert(start < (child_index as int) < d0.elements.len());
                // this child is not inside any earlier sibling's subtree
                assert forall|k: int| 0 <= k < i implies !in_subtree(
                    d0,
                    #[trigger] children[k] as int,
                    child_index as int,
                ) by {
                    if in_subtree(d0, children[k] as int, child_index as int) {
                        assert(children[k] != child_index);
                        assert(children.contains(children[k])) by {
                            assert(0 <= k < children.len());
                        }
                        assert(children.contains(child_index)) by {
                            assert(0 <= i < children.len());
                        }
                        lemma_child_subtrees_disjoint(
                            d0,
                            start,
                            child_index,
                            children[k],
                            child_index as int,
                        );
                    }
                }
                assert(!covered_by_children(d0, children, i, child_index as int));
                assert(self@.elements[child_index as int].style == d0.elements[child_index
                    as int].style);
                // the child is a strict member of the subtree being cascaded
                assert(in_subtree(d0, start, child_index as int)) by {
                    assert(d0.elements[child_index as int].has_parent && (d0.elements[child_index
                        as int].parent as int) == start);
                    assert(in_subtree(d0, start, start));
                }
            }
            let merged = ElementStyleProperties::merge(
                &self.elements[child_index].style,
                &parent_props,
            );
            proof {
                assert(spec_cascaded(d0, start, start) == d0.elements[start].style);
                assert(merged@ == spec_cascaded(d0, start, child_index as int));
            }
            let ghost d_head = self@;
            self.elements[child_index].style = merged;
            let ghost d_mid = self@;
            proof {
                assert(same_structure(d0, d_mid)) by {
                    assert forall|y: int| 0 <= y < d0.elements.len() implies #[trigger] d_mid
                        .elements[y] == ElementModel {
                        style: d_mid.elements[y].style,
                        ..d0.elements[y]
                    } by {
                        if y != child_index as int {
                            assert(d_mid.elements[y] == d_head.elements[y]);
                        }
                        assert(d_head.elements[y] == ElementModel {
                            style: d_head.elements[y].style,
                            ..d0.elements[y]
                        });
                    }
                }
                lemma_wf_same_structure(d0, d_mid);
                assert forall|y: int| 0 <= y < d0.elements.len() && y != child_index
                    as int implies #[trigger] d_mid.elements[y].style == d_head.elements[
                y].style by {
                    assert(d_mid.elements[y] == d_head.elements[y]);
                }
                assert(self@.elements.len() == d0.elements.len());
            }
            self.cascade_element_styles(child_index);
            proof {
                let d_now = self@;
                assert(same_structure(d0, d_now));
                assert forall|x: int|
                    0 <= x < d0.elements.len() && covered_by_children(
                        d0,
                        children,
                        i + 1,
                        x,
                    ) implies #[trigger] d_now.elements[x].style == spec_cascaded(
                    d0,
                    start,
                    x,
                ) by {
                    let k = choose|k: int|
                        0 <= k < i + 1 && in_subtree(d0, #[trigger] children[k] as int, x);
                    lemma_in_subtree_same_structure(d0, d_mid, child_index as int, x);
                    if k == i {
                        // inside the child just cascaded: compose the two cascades
                        assert(in_subtree(d0, child_index as int, x));
                        assert forall|y: int|
                            0 <= y < d0.elements.len() && y != child_index as int && in_subtree(
                                d0,
                                child_index as int,
                                y,
                            ) implies #[trigger] d_mid.elements[y].style == d0.elements[
                        y].style by {
                            assert forall|kk: int| 0 <= kk < i implies !in_subtree(
                                d0,
                                #[trigger] children[kk] as int,
                                y,
                            ) by {
                                if in_subtree(d0, children[kk] as int, y) {
                                    assert(children.contains(children[kk])) by {
                                        assert(0 <= kk < children.len());
                                    }
                                    assert(children.contains(child_index)) by {
                                        assert(0 <= i < children.len());
                                    }
                                    lemma_child_subtrees_disjoint(
                                        d0,
                                        start,
                                        child_index,
                                        children[kk],
                                        y,
                                    );
                                }
                            }
                            assert(!covered_by_children(d0, children, i, y));
                        }
                        lemma_cascaded_compose(d0, d_mid, start, child_index as int, x);
                        assert(d_now.elements[x].style == spec_cascaded(
                            d_mid,
                            child_index as int,
                            x,
                        ));
                    } else {
                        // inside an earlier sibling's subtree: untouched by this pass
                        assert(in_subtree(d0, children[k] as int, x));
                        assert(children.contains(children[k])) by {
                            assert(0 <= k < children.len());
                        }
                        assert(children.contains(child_index)) by {
                            assert(0 <= i < children.len());
                        }
                        assert(children[k] != child_index);
                        lemma_child_subtrees_disjoint(d0, start, children[k], child_index, x);
                        assert(!in_subtree(d0, child_index as int, x));
                        assert(!in_subtree(d_mid, child_index as int, x));
                        assert(spec_cascaded(d_mid, child_index as int, x) == d_mid.elements[
                        x].style);
                        assert(covered_by_children(d0, children, i, x));
                        assert(d_mid.elements[x].style == spec_cascaded(d0, start, x));
                        assert(d_now.elements[x].style == spec_cascaded(
                            d_mid,
                            child_index as int,
                            x,
                        ));
                    }
                }
                assert forall|x: int|
                    0 <= x < d0.elements.len() && !covered_by_children(
                        d0,
                        children,
                        i + 1,
                        x,
                    ) implies #[trigger] d_now.elements[x].style == d0.elements[x].style by {
                    assert(!covered_by_children(d0, children, i, x)) by {
                        if covered_by_children(d0, children, i, x) {
                            let k = choose|k: int|
                                0 <= k < i && in_subtree(d0, #[trigger] children[k] as int, x);
                            assert(0 <= k < i + 1 && in_subtree(d0, children[k] as int, x));
                        }
                    }
                    assert(!in_subtree(d0, child_index as int, x)) by {
                        if in_subtree(d0, child_index as int, x) {
                            assert(0 <= i < i + 1 && in_subtree(d0, children[i] as int, x));
                        }
                    }
                    lemma_in_subtree_same_structure(d0, d_mid, child_index as int, x);
                    assert(spec_cascaded(d_mid, child_index as int, x) == d_mid.elements[
                    x].style);
                    assert(d_mid.elements[x].style == d0.elements[x].style);
                }
            }
            child_index_i += 1;
        }
        proof {
            let d_end = self@;
            assert forall|x: int| 0 <= x < d0.elements.len() implies #[trigger] d_end.elements[
            x].style == spec_cascaded(d0, start, x) by {
                if covered_by_children(d0, children, children_num as int, x) {
                } else {
                    assert(d_end.elements[x].style == d0.elements[x].style);
                    if in_subtree(d0, start, x) && x != start {
                        lemma_child_on_chain(d0, start, x);
                        let c = choose|c: usize|
                            d0.elements[start].children.contains(c) && in_subtree(
                                d0,
                                c as int,
                                x,
                            ) && start < (c as int) < d0.elements.len();
                        let k = choose|k: int| 0 <= k < children.len() && children[k] == c;
                        assert(0 <= k < children_num && in_subtree(d0, children[k] as int, x));
                        assert(covered_by_children(d0, children, children_num as int, x));
                    } else {
                        assert(spec_cascaded(d0, start, x) == d0.elements[x].style);
                    }
                }
            }
        }
    }

    /// The nearest value of a style property on the element or its
    /// ancestors; see [`spec_ancestor_style_lookup`].
    pub fn get_element_style_property(&self, element_index: usize, property_name: &str) -> (r:
        Option<&PrimitiveValue>)
        requires
            self.wf(),
            element_index < self@.elements.len(),
        ensures
            (r is Some) == (spec_ancestor_style_lookup(
                self@,
                element_index as int,
                property_name@,
            ) is Some),
            r matches Some(v) ==> spec_ancestor_style_lookup(
                self@,
                element_index as int,
                property_name@,
            ) matches Some(m) && v@ == m,
    {
        let mut cur: usize = element_index;
        loop
            invariant
                self.wf(),
                cur < self@.elements.len(),
                spec_ancestor_style_lookup(self@, element_index as int, property_name@)
                    == spec_ancestor_style_lookup(self@, cur as int, property_name@),
            decreases cur,
        {
            proof {
                assert(elem_wf(self@, cur as int));
            }
            let found = self.elements[cur].style.get(property_name);
            if found.is_some() {
                return found;
            }
            if self.elements[cur].has_parent {
                cur = self.elements[cur].parent;
            } else {
                return None;
            }
        }
    }

    /// Creates an element for a markup node: its `style` attribute is
    /// parsed into authored declarations, every other attribute is
    /// stored verbatim; see [`spec_apply_attrs`].
    pub fn visit_element_node(&mut self, tag: &str, attributes: &Vec<(String, String)>) -> (idx:
        usize)
        requires
            old(self).wf(),
        ensures
            final(self).wf(),
            idx == old(self)@.elements.len(),
            final(self)@.root == old(self)@.root,
            final(self)@.elements == old(self)@.elements.push(
                spec_apply_attrs(
                    spec_fresh_element(tag@, idx),
                    attributes@.map_values(|p: (String, String)| (p.0@, p.1@)),
                    attributes@.len() as int,
                ),
            ),
    {
        let ghost d0 = self@;
        let idx = self.create_element(tag);
        let ghost attrs = attributes@.map_values(|p: (String, String)| (p.0@, p.1@));
        let mut i: usize = 0;
        while i < attributes.len()
            invariant
                self.wf(),
                idx == d0.elements.len(),
                self@.root == d0.root,
                attrs == attributes@.map_values(|p: (String, String)| (p.0@, p.1@)),
                i <= attrs.len(),
                self@.elements == d0.elements.push(
                    spec_apply_attrs(spec_fresh_element(tag@, idx), attrs, i as int),
                ),
            decreases attributes@.len() - i,
        {
            let ghost dprev = self@;
            let name = &attributes[i].0;
            let value = &attributes[i].1;
            proof {
                assert(attrs[i as int] == (name@, value@));
            }
            if *name == String::from_str("style") {
                let declarations = parse_inline(value.as_str());
                let ghost decls = declarations@.map_values(
                    |d: crate::property::PropertyDeclaration| d@,
                );
                let ghost dw = self@;
                proof {
                    assert(self@.elements =~~= dprev.elements.update(
                        idx as int,
                        ElementModel {
                            style: StyleModel {
                                auth: spec_apply_decls(
                                    dprev.elements[idx as int].style.auth,
                                    decls,
                                    0,
                                ),
                                dflt: dprev.elements[idx as int].style.dflt,
                            },
                            ..dprev.elements[idx as int]
                        },
                    ));
                }
                let mut j: usize = 0;
                while j < declarations.len()
                    invariant
                        self.maps_wf(),
                        doc_wf(dw),
                        self@.elements.len() == dw.elements.len(),
                        idx < self@.elements.len(),
                        self@.root == dprev.root,
                        decls == declarations@.map_values(
                            |d: crate::property::PropertyDeclaration| d@,
                        ),
                        j <= decls.len(),
                        self@.elements == dprev.elements.update(
                            idx as int,
                            ElementModel {
                                style: StyleModel {
                                    auth: spec_apply_decls(
                                        dprev.elements[idx as int].style.auth,
                                        decls,
                                        j as int,
                                    ),
                                    dflt: dprev.elements[idx as int].style.dflt,
                                },
                                ..dprev.elements[idx as int]
                            },
                        ),
                        doc_wf(dprev),
                        idx < dprev.elements.len(),
                    decreases declarations@.len() - j,
                {
                    let dname = declarations[j].name.clone();
                    let dvalue = declarations[j].value.duplicate();
                    proof {
                        assert(decls[j as int] == declarations@[j as int]@);
                        assert(decls[j as int].name == dname@);
                        assert(decls[j as int].value == dvalue@);
                    }
                    let ghost e_head = self@.elements[idx as int];
                    self.elements[idx].add_style_property(dname.as_str(), dvalue);
                    proof {
                        assert(self@.elements.len() == dprev.elements.len());
                        assert(forall|y: int|
                            0 <= y < dprev.elements.len() && y != idx as int
                                ==> #[trigger] self@.elements[y] == dprev.elements.update(
                                idx as int,
                                e_head,
                            )[y]);
                        assert(e_head == ElementModel {
                            style: StyleModel {
                                auth: spec_apply_decls(
                                    dprev.elements[idx as int].style.auth,
                                    decls,
                                    j as int,
                                ),
                                dflt: dprev.elements[idx as int].style.dflt,
                            },
                            ..dprev.elements[idx as int]
                        });
                        assert(self@.elements[idx as int] == ElementModel {
                            style: StyleModel {
                                auth: e_head.style.auth.insert(dname@, dvalue@),
                                dflt: e_head.style.dflt,
                            },
                            ..e_head
                        });
                        assert(spec_apply_decls(
                            dprev.elements[idx as int].style.auth,
                            decls,
                            j + 1,
                        ) =~= spec_apply_decls(
                            dprev.elements[idx as int].style.auth,
                            decls,
                            j as int,
                        ).insert(decls[j as int].name, decls[j as int].value));
                        assert(self@.elements =~~= dprev.elements.update(
                            idx as int,
                            ElementModel {
                                style: StyleModel {
                                    auth: spec_apply_decls(
                                        dprev.elements[idx as int].style.auth,
                                        decls,
                                        j + 1,
                                    ),
                                    dflt: dprev.elements[idx as int].style.dflt,
                                },
                                ..dprev.elements[idx as int]
                            },
                        ));
                    }
                    j += 1;
                }
                proof {
                    assert(decls =~~= spec_parse_inline(vstd::utf8::encode_utf8(value@)));
                    let applied = spec_apply_attrs(spec_fresh_element(tag@, idx), attrs, i as int);
                    assert(dprev.elements[idx as int] == applied);
                    assert(name@ == "style"@);
                    assert(spec_apply_attr(applied, name@, value@) =~~= ElementModel {
                        style: StyleModel {
                            auth: spec_apply_decls(
                                applied.style.auth,
                                decls,
                                decls.len() as int,
                            ),
                            dflt: applied.style.dflt,
                        },
                        ..applied
                    }) by {
                        let parsed = spec_parse_inline(vstd::utf8::encode_utf8(value@));
                        assert(decls == parsed);
                        assert(spec_apply_decls(applied.style.auth, parsed, parsed.len() as int)
                            == spec_apply_decls(applied.style.auth, decls, decls.len() as int));
                    }
                    assert(self@.elements[idx as int] =~~= spec_apply_attr(
                        applied,
                        name@,
                        value@,
                    ));
                    assert(spec_apply_attrs(spec_fresh_element(tag@, idx), attrs, i + 1)
                        == spec_apply_attr(applied, name@, value@));
                    assert(self@.elements =~~= d0.elements.push(
                        spec_apply_attrs(spec_fresh_element(tag@, idx), attrs, i + 1),
                    )) by {
                        assert forall|y: int|
                            0 <= y < self@.elements.len() && y != idx as int implies self@
                            .elements[y] == d0.elements.push(
                            spec_apply_attrs(spec_fresh_element(tag@, idx), attrs, i + 1),
                        )[y] by {
                            assert(self@.elements[y] == dprev.elements[y]);
                        }
                    }
                    lemma_wf_same_structure_full(dprev, self@);
                }
            } else {
                self.elements[idx].add_attribute(name.as_str(), value.as_str());
                proof {
                    let applied = spec_apply_attrs(spec_fresh_element(tag@, idx), attrs, i as int);
                    assert(dprev.elements[idx as int] == applied);
                    assert(name@ != "style"@);
                    assert(self@.elements[idx as int] =~~= spec_apply_attr(
                        applied,
                        name@,
                        value@,
                    ));
                    assert(spec_apply_attrs(spec_fresh_element(tag@, idx), attrs, i + 1)
                        == spec_apply_attr(applied, name@, value@));
                    assert(self@.elements =~~= d0.elements.push(
                        spec_apply_attrs(spec_fresh_element(tag@, idx), attrs, i + 1),
                    )) by {
                        assert forall|y: int|
                            0 <= y < self@.elements.len() && y != idx as int implies self@
                            .elements[y] == d0.elements.push(
                            spec_apply_attrs(spec_fresh_element(tag@, idx), attrs, i + 1),
                        )[y] by {
                            assert(self@.elements[y] == dprev.elements[y]);
                        }
                    }
                    lemma_wf_same_structure_full(dprev, self@);
                }
            }
            i += 1;
        }
        idx
    }
}

/// A freshly created element of the given tag at the given handle.
pub open spec fn spec_fresh_element(tag: Seq<char>, idx: usize) -> ElementModel {
    ElementModel {
        index: idx,
        tag: tag,
        text: Seq::<char>::empty(),
        parent: 0,
        has_parent: false,
        children: Seq::<usize>::empty(),
        attributes: Map::<Seq<char>, Seq<char>>::empty(),
        style: StyleModel {
            auth: Map::<Seq<char>, PrimitiveValueModel>::empty(),
            dflt: spec_tag_defaults(tag),
        },
    }
}

/// One markup attribute applied to an element: `style` parses into
/// authored declarations, a name with a space is rejected, anything
/// else is stored verbatim.
pub open spec fn spec_apply_attr(e: ElementModel, name: Seq<char>, value: Seq<char>) -> ElementModel {
    if name == "style"@ {
        ElementModel {
            style: StyleModel {
                auth: spec_apply_decls(
                    e.style.auth,
                    spec_parse_inline(vstd::utf8::encode_utf8(value)),
                    spec_parse_inline(vstd::utf8::encode_utf8(value)).len() as int,
                ),
                dflt: e.style.dflt,
            },
            ..e
        }
    } else if name.contains(' ') {
        e
    } else {
        ElementModel { attributes: e.attributes.insert(name, value), ..e }
    }
}

/// The first `n` markup attributes applied in order.
pub open spec fn spec_apply_attrs(
    e: ElementModel,
    attrs: Seq<(Seq<char>, Seq<char>)>,
    n: int,
) -> ElementModel
    decreases n,
{
    if n <= 0 {
        e
    } else {
        spec_apply_attr(spec_apply_attrs(e, attrs, n - 1), attrs[n - 1].0, attrs[n - 1].1)
    }
}

/// Well-formedness survives any change confined to the attribute and
/// style stores.
proof fn lemma_wf_same_structure_full(d1: DocumentModel, d2: DocumentModel)
    requires
        doc_wf(d1),
        d1.root == d2.root,
        d1.elements.len() == d2.elements.len(),
        forall|i: int|
            0 <= i < d1.elements.len() ==> {
                let e1 = d1.elements[i];
                let e2 = #[trigger] d2.elements[i];
                e2.index == e1.index && e2.parent == e1.parent && e2.has_parent == e1.has_parent
                    && e2.children == e1.children
            },
    ensures
        doc_wf(d2),
{
    assert forall|i: int| 0 <= i < d2.elements.len() implies #[trigger] elem_wf(d2, i) by {
        assert(elem_wf(d1, i));
        let e1 = d1.elements[i];
        let e2 = d2.elements[i];
        if e2.has_parent {
            assert(d2.elements[e2.parent as int].children == d1.elements[e1.parent
                as int].children);
        }
        assert forall|j: int| 0 <= j < e2.children.len() implies i < (
        #[trigger] e2.children[j] as int) < d2.elements.len() && d2.elements[e2.children[
        j] as int].has_parent && (d2.elements[e2.children[j] as int].parent as int) == i by {
            assert(i < (e1.children[j] as int) < d1.elements.len());
            assert(d2.elements[e1.children[j] as int].has_parent == d1.elements[e1.children[
            j] as int].has_parent);
            assert(d2.elements[e1.children[j] as int].parent == d1.elements[e1.children[
            j] as int].parent);
        }
    }
}

/// Appending a fresh, unlinked element preserves well-formedness.
proof fn lemma_push_keeps_wf(d0: DocumentModel, d: DocumentModel)
    requires
        doc_wf(d0),
        d.root == d0.root,
        d.elements.len() == d0.elements.len() + 1,
        forall|i: int| 0 <= i < d0.elements.len() ==> d.elements[i] == d0.elements[i],
        d.elements.last().index == d0.elements.len(),
        !d.elements.last().has_parent,
        d.elements.last().children.len() == 0,
    ensures
        doc_wf(d),
{
    assert forall|i: int| 0 <= i < d.elements.len() implies #[trigger] elem_wf(d, i) by {
        if i < d0.elements.len() {
            assert(elem_wf(d0, i));
            let e = d.elements[i];
            assert(e == d0.elements[i]);
            if e.has_parent {
                assert(d.elements[e.parent as int] == d0.elements[e.parent as int]);
            }
            assert forall|j: int| 0 <= j < e.children.len() implies i < (
            #[trigger] e.children[j] as int) < d.elements.len() && d.elements[e.children[
            j] as int].has_parent && (d.elements[e.children[j] as int].parent as int) == i by {
                assert(d.elements[e.children[j] as int] == d0.elements[e.children[j] as int]);
            }
        }
    }
}

} // verus!
