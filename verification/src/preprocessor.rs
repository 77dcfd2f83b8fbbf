//! Preprocessing: which external resources a document needs.
//!
//! Before layout, every text node's resolved font name is collected so
//! that the caller can load each needed font once and register it in
//! the resources manager.

use vstd::prelude::*;
use crate::document::{Document, DocumentModel, doc_wf, elem_wf, in_subtree,
    lemma_in_subtree_trans, lemma_child_on_chain};
use crate::element::{Element, spec_font_name};

verus! {

use vstd::string::StringExecFns;

/// Whether a name list holds the given name.
pub open spec fn names_has(v: Seq<String>, n: Seq<char>) -> bool {
    exists|i: int| 0 <= i < v.len() && v[i]@ == n
}

/// Whether some text node in the subtree of `start` resolves its font
/// to the given name.
pub open spec fn font_needed(d: DocumentModel, start: int, n: Seq<char>) -> bool {
    exists|x: int|
        0 <= x < d.elements.len() && #[trigger] in_subtree(d, start, x) && d.elements[x].tag
            == "#text"@ && spec_font_name(d.elements[x]) == n
}

/// The preprocessing pass over one document.
pub struct Preprocessor<'a> {
    document: &'a Document,
}

impl<'a> Preprocessor<'a> {
    /// The document being preprocessed.
    pub closed spec fn doc(&self) -> DocumentModel {
        self.document@
    }

    /// The document reference is well formed.
    pub closed spec fn wf(&self) -> bool {
        self.document.wf()
    }

    /// A preprocessor over the given document.
    pub fn new(document: &'a Document) -> (p: Preprocessor<'a>)
        requires
            document.wf(),
        ensures
            p.wf(),
            p.doc() == document@,
    {
        Preprocessor { document: document }
    }

    /// The font names the document needs, each once: exactly the
    /// resolved font names of the text nodes under the root.
    pub fn process_document(&self) -> (r: Vec<String>)
        requires
            self.wf(),
        ensures
            forall|i: int, j: int| 0 <= i < j < r@.len() ==> r@[i]@ != r@[j]@,
            forall|n: Seq<char>| names_has(r@, n) == font_needed(self.doc(), self.doc().root as int, n),
    {
        let mut manager: Vec<String> = Vec::new();
        proof {
            assert(doc_wf(self.doc()));
        }
        self.process_element(self.document.get_root_index(), &mut manager);
        manager
    }

    /// Collects the font names needed by one subtree into `manager`.
    fn process_element(&self, element_index: usize, manager: &mut Vec<String>)
        requires
            self.wf(),
            element_index < self.doc().elements.len(),
            forall|i: int, j: int|
                0 <= i < j < old(manager)@.len() ==> old(manager)@[i]@ != old(manager)@[j]@,
        ensures
            forall|i: int, j: int|
                0 <= i < j < final(manager)@.len() ==> final(manager)@[i]@ != final(manager)@[j]@,
            forall|n: Seq<char>|
                #![trigger names_has(final(manager)@, n)]
                names_has(final(manager)@, n) == (names_has(old(manager)@, n) || font_needed(
                    self.doc(),
                    element_index as int,
                    n,
                )),
        decreases self.doc().elements.len() - element_index,
    {
        let ghost d = self.doc();
        let ghost start = element_index as int;
        proof {
            assert(doc_wf(d));
            assert(elem_wf(d, start));
        }
        let element = self.document.get_element_immutable(element_index);
        if element.is_text_node() {
            let font_name = self.get_font_name(element);
            let ghost before = manager@;
            if !contains_name(manager, &font_name) {
                manager.push(font_name);
                proof {
                    assert forall|i: int, j: int|
                        0 <= i < j < manager@.len() implies manager@[i]@ != manager@[j]@ by {
                        if j == manager@.len() - 1 {
                            if manager@[i]@ == manager@[j]@ {
                                assert(names_has(before, manager@[j]@));
                            }
                        } else {
                            assert(manager@[i] == before[i] && manager@[j] == before[j]);
                        }
                    }
                }
            }
            proof {
                let nm = spec_font_name(d.elements[start]);
                assert forall|n: Seq<char>| names_has(manager@, n) == (names_has(before, n) || n
                    == nm) by {
                    if names_has(manager@, n) {
                        let i = choose|i: int| 0 <= i < manager@.len() && manager@[i]@ == n;
                        if i < before.len() {
                            assert(names_has(before, n));
                        }
                    }
                    if names_has(before, n) {
                        let i = choose|i: int| 0 <= i < before.len() && before[i]@ == n;
                        assert(manager@[i]@ == n);
                        assert(names_has(manager@, n));
                    }
                    if n == nm {
                        assert(names_has(manager@, n)) by {
                            if names_has(before, nm) {
                                let i = choose|i: int|
                                    0 <= i < before.len() && before[i]@ == nm;
                                assert(manager@[i]@ == n);
                            } else {
                                assert(manager@[manager@.len() - 1]@ == n);
                            }
                        }
                    }
                }
            }
        }
        let ghost after_self = manager@;
        let children_num = self.document.get_element_immutable(element_index).children.len();
        let ghost cs = d.elements[start].children;
        let mut idx: usize = 0;
        while idx < children_num
            invariant
                self.wf(),
                d == self.doc(),
                start == element_index as int,
                0 <= start < d.elements.len(),
                doc_wf(d),
                elem_wf(d, start),
                cs == d.elements[start].children,
                children_num == cs.len(),
                idx <= children_num,
                forall|i: int, j: int|
                    0 <= i < j < manager@.len() ==> manager@[i]@ != manager@[j]@,
                forall|n: Seq<char>|
                    #![trigger names_has(manager@, n)]
                    names_has(manager@, n) == (names_has(after_self, n) || exists|k: int|
                        0 <= k < idx && #[trigger] font_needed(d, cs[k] as int, n)),
            decreases children_num - idx,
        {
            let child_index = self.document.get_element_immutable(element_index).children[idx];
            let ghost before_child = manager@;
            proof {
                assert(cs[idx as int] == child_index);
            }
            self.process_element(child_index, manager);
            proof {
                assert forall|n: Seq<char>| names_has(manager@, n) == (names_has(after_self, n)
                    || exists|k: int|
                    0 <= k < idx + 1 && #[trigger] font_needed(d, cs[k] as int, n)) by {
                    if names_has(manager@, n) {
                        if names_has(before_child, n) {
                            if !names_has(after_self, n) {
                                let k = choose|k: int|
                                    0 <= k < idx && #[trigger] font_needed(d, cs[k] as int, n);
                                assert(0 <= k < idx + 1 && font_needed(d, cs[k] as int, n));
                            }
                        } else {
                            assert(font_needed(d, cs[idx as int] as int, n));
                            assert(0 <= idx < idx + 1 && font_needed(
                                d,
                                cs[idx as int] as int,
                                n,
                            ));
                        }
                    }
                    if exists|k: int| 0 <= k < idx + 1 && #[trigger] font_needed(d, cs[k] as int, n) {
                        let k = choose|k: int|
                            0 <= k < idx + 1 && #[trigger] font_needed(d, cs[k] as int, n);
                        if k < idx {
                            assert(0 <= k < idx && font_needed(d, cs[k] as int, n));
                            assert(names_has(before_child, n));
                        } else {
                            assert(font_needed(d, child_index as int, n));
                        }
                        assert(names_has(manager@, n));
                    }
                    if names_has(after_self, n) {
                        assert(names_has(before_child, n));
                        assert(names_has(manager@, n));
                    }
                }
            }
            idx += 1;
        }
        proof {
            assert forall|n: Seq<char>| names_has(manager@, n) == (names_has(old(manager)@, n)
                || font_needed(d, start, n)) by {
                // the subtree's needs split into the node itself and its children
                assert(font_needed(d, start, n) == ((d.elements[start].tag == "#text"@
                    && spec_font_name(d.elements[start]) == n) || exists|k: int|
                    0 <= k < cs.len() && #[trigger] font_needed(d, cs[k] as int, n))) by {
                    if font_needed(d, start, n) {
                        let x = choose|x: int|
                            0 <= x < d.elements.len() && #[trigger] in_subtree(d, start, x)
                                && d.elements[x].tag == "#text"@ && spec_font_name(d.elements[x])
                                == n;
                        if x != start {
                            lemma_child_on_chain(d, start, x);
                            let c = choose|c: usize|
                                d.elements[start].children.contains(c) && in_subtree(
                                    d,
                                    c as int,
                                    x,
                                ) && start < (c as int) < d.elements.len();
                            let k = choose|k: int| 0 <= k < cs.len() && cs[k] == c;
                            assert(font_needed(d, cs[k] as int, n));
                        }
                    }
                    if exists|k: int| 0 <= k < cs.len() && #[trigger] font_needed(d, cs[k] as int, n) {
                        let k = choose|k: int|
                            0 <= k < cs.len() && #[trigger] font_needed(d, cs[k] as int, n);
                        let x = choose|x: int|
                            0 <= x < d.elements.len() && #[trigger] in_subtree(d, cs[k] as int, x)
                                && d.elements[x].tag == "#text"@ && spec_font_name(d.elements[x])
                                == n;
                        assert(in_subtree(d, start, cs[k] as int)) by {
                            assert(d.elements[cs[k] as int].has_parent && (d.elements[cs[
                            k] as int].parent as int) == start);
                            assert(in_subtree(d, start, start));
                        }
                        lemma_in_subtree_trans(d, start, cs[k] as int, x);
                        assert(font_needed(d, start, n));
                    }
                    if d.elements[start].tag == "#text"@ && spec_font_name(d.elements[start])
                        == n {
                        assert(in_subtree(d, start, start));
                        assert(font_needed(d, start, n));
                    }
                }
            }
        }
    }

    /// The resolved font name of an element: its `font` style
    /// property, or `"Arial"`.
    pub fn get_font_name(&self, element: &Element) -> (r: String)
        requires
            element.wf(),
        ensures
            r@ == spec_font_name(element@),
    {
        match element.get_style_property("font") {
            Some(font_prop) => font_prop.as_string().clone(),
            None => String::from_str("Arial"),
        }
    }
}

/// Whether the collected list already holds a name.
fn contains_name(names: &Vec<String>, name: &String) -> (r: bool)
    ensures
        r == names_has(names@, name@),
{
    let mut i: usize = 0;
    let n = names.len();
    while i < n
        invariant
            n == names@.len(),
            i <= n,
            forall|j: int| 0 <= j < i ==> names@[j]@ != name@,
        decreases n - i,
    {
        if names[i] == *name {
            assert(names_has(names@, name@)) by {
                assert(names@[i as int]@ == name@);
            }
            return true;
        }
        i += 1;
    }
    proof {
        if names_has(names@, name@) {
            let j = choose|j: int| 0 <= j < names@.len() && names@[j]@ == name@;
            assert(names@[j]@ != name@);
        }
    }
    false
}

} // verus!
