//! One node of the document tree.
//!
//! An element carries its arena handle, its tag (with `"#text"`
//! denoting a text node and its payload in `text`), its parent and
//! child handles, its attributes, and its two-layer style store.

use vstd::prelude::*;
use crate::parser::{parse_inline, spec_parse_inline};
use crate::primitive_value::{PrimitiveValue, PrimitiveValueModel};
use crate::property::PropertyDeclarationModel;
use crate::string_map::StringMap;
use crate::style::{ElementStyleProperties, StyleModel, spec_style_get};

verus! {

use vstd::string::StringSliceAdditionalSpecFns;
use vstd::string::StrSliceExecFns;
use vstd::string::StringExecFns;

/// One document node.
#[derive(Debug)]
pub struct Element {
    /// Index of this element in the document's element list.
    pub index: usize,
    /// Tag name; `"#text"` denotes a text node.
    pub tag: String,
    /// The text payload of a text node.
    pub text: String,
    /// Index of the parent element, meaningful when `has_parent`.
    pub parent: usize,
    /// Whether the element has been linked under a parent.
    pub has_parent: bool,
    /// Handles of the direct children, in document order.
    pub children: Vec<usize>,
    /// The element's attributes, accessed through the methods below.
    pub attributes: StringMap<String>,
    /// The element's style layers, accessed through the methods below.
    pub style: ElementStyleProperties,
}

/// Mathematical model of an [`Element`].
#[verifier::ext_equal]
pub struct ElementModel {
    pub index: usize,
    pub tag: Seq<char>,
    pub text: Seq<char>,
    pub parent: usize,
    pub has_parent: bool,
    pub children: Seq<usize>,
    pub attributes: Map<Seq<char>, Seq<char>>,
    pub style: StyleModel,
}

impl View for Element {
    type V = ElementModel;

    open spec fn view(&self) -> ElementModel {
        ElementModel {
            index: self.index,
            tag: self.tag@,
            text: self.text@,
            parent: self.parent,
            has_parent: self.has_parent,
            children: self.children@,
            attributes: self.attributes@,
            style: self.style@,
        }
    }
}

/// The declaration text each tag carries as its built-in default
/// styling.
pub open spec fn spec_tag_default_text(tag: Seq<char>) -> Seq<char> {
    if tag == "div"@ {
        "display: block; color: black;"@
    } else {
        ""@
    }
}

/// The given declarations folded into a style layer, in order.
pub open spec fn spec_apply_decls(
    layer: Map<Seq<char>, PrimitiveValueModel>,
    decls: Seq<PropertyDeclarationModel>,
    n: int,
) -> Map<Seq<char>, PrimitiveValueModel>
    decreases n,
{
    if n <= 0 {
        layer
    } else {
        spec_apply_decls(layer, decls, n - 1).insert(decls[n - 1].name, decls[n - 1].value)
    }
}

/// The default style layer a freshly created element of the given tag
/// starts with.
pub open spec fn spec_tag_defaults(tag: Seq<char>) -> Map<Seq<char>, PrimitiveValueModel> {
    spec_apply_decls(
        Map::<Seq<char>, PrimitiveValueModel>::empty(),
        spec_parse_inline(vstd::utf8::encode_utf8(spec_tag_default_text(tag))),
        spec_parse_inline(vstd::utf8::encode_utf8(spec_tag_default_text(tag))).len() as int,
    )
}

/// The resolved font name of an element: its `font` style property's
/// literal text, or `"Arial"` when unset.
pub open spec fn spec_font_name(e: ElementModel) -> Seq<char> {
    match spec_style_get(e.style, "font"@) {
        Some(v) => v.value,
        None => "Arial"@,
    }
}

impl Element {
    /// The attribute and style maps keep their keys unique.
    pub open spec fn wf(&self) -> bool {
        self.attributes.wf() && self.style.wf()
    }

    /// Adds an attribute to the node. An attribute name holding a
    /// space is rejected, leaving the node unchanged.
    pub fn add_attribute(&mut self, name: &str, value: &str)
        requires
            old(self).wf(),
        ensures
            final(self).wf(),
            final(self)@ == (if name@.contains(' ') {
                old(self)@
            } else {
                ElementModel { attributes: old(self)@.attributes.insert(name@, value@), ..old(
                    self,
                )@ }
            }),
    {
        let n = name.unicode_len();
        let mut i: usize = 0;
        while i < n
            invariant
                self.wf(),
                self@ == old(self)@,
                n == name@.len(),
                i <= n,
                forall|j: int| 0 <= j < i ==> name@[j] != ' ',
            decreases n - i,
        {
            if name.get_char(i) == ' ' {
                // an attribute name must not contain spaces
                assert(name@.contains(' ')) by {
                    assert(name@[i as int] == ' ');
                }
                return ;
            }
            i += 1;
        }
        proof {
            assert(!name@.contains(' ')) by {
                if name@.contains(' ') {
                    let j = choose|j: int| 0 <= j < name@.len() && name@[j] == ' ';
                    assert(name@[j] != ' ');
                }
            }
        }
        self.attributes.set(String::from_str(name), String::from_str(value));
    }

    /// The value of an attribute, if the node carries it.
    pub fn get_attribute(&self, name: &str) -> (r: Option<&String>)
        requires
            self.wf(),
        ensures
            (r is Some) == self@.attributes.contains_key(name@),
            r matches Some(v) ==> v@ == self@.attributes[name@],
    {
        let owned = String::from_str(name);
        self.attributes.get(&owned)
    }

    /// Removes an attribute from the node.
    pub fn remove_attribute(&mut self, name: &str)
        requires
            old(self).wf(),
        ensures
            final(self).wf(),
            final(self)@ == (ElementModel {
                attributes: old(self)@.attributes.remove(name@),
                ..old(self)@
            }),
    {
        let owned = String::from_str(name);
        self.attributes.remove(&owned);
    }

    /// Whether the node carries an attribute of the given name.
    pub fn has_attribute(&self, name: &str) -> (r: bool)
        requires
            self.wf(),
        ensures
            r == self@.attributes.contains_key(name@),
    {
        let owned = String::from_str(name);
        self.attributes.contains(&owned)
    }

    /// Installs the tag's built-in default declarations into the
    /// default style layer; see [`spec_tag_defaults`].
    pub fn add_default_style_properties(&mut self)
        requires
            old(self).wf(),
        ensures
            final(self).wf(),
            final(self)@ == (ElementModel {
                style: StyleModel {
                    auth: old(self)@.style.auth,
                    dflt: spec_apply_decls(
                        old(self)@.style.dflt,
                        spec_parse_inline(
                            vstd::utf8::encode_utf8(spec_tag_default_text(old(self)@.tag)),
                        ),
                        spec_parse_inline(
                            vstd::utf8::encode_utf8(spec_tag_default_text(old(self)@.tag)),
                        ).len() as int,
                    ),
                },
                ..old(self)@
            }),
    {
        let default_styles: &str = if self.tag == String::from_str("div") {
            "display: block; color: black;"
        } else {
            ""
        };
        assert(default_styles@ == spec_tag_default_text(self@.tag));
        let styles = parse_inline(default_styles);
        let ghost decls = styles@.map_values(|d: crate::property::PropertyDeclaration| d@);
        let mut i: usize = 0;
        while i < styles.len()
            invariant
                self.wf(),
                self@.attributes == old(self)@.attributes,
                self@.index == old(self)@.index,
                self@.tag == old(self)@.tag,
                self@.text == old(self)@.text,
                self@.parent == old(self)@.parent,
                self@.has_parent == old(self)@.has_parent,
                self@.children == old(self)@.children,
                decls == styles@.map_values(|d: crate::property::PropertyDeclaration| d@),
                i <= styles@.len(),
                self@.style.auth == old(self)@.style.auth,
                self@.style.dflt == spec_apply_decls(old(self)@.style.dflt, decls, i as int),
            decreases styles@.len() - i,
        {
            let name = styles[i].name.clone();
            let value = styles[i].value.duplicate();
            self.style.set_default(name.as_str(), value);
            i += 1;
        }
    }

    /// Sets an authored style property.
    pub fn add_style_property(&mut self, name: &str, value: PrimitiveValue)
        requires
            old(self).wf(),
        ensures
            final(self).wf(),
            final(self)@ == (ElementModel {
                style: StyleModel {
                    auth: old(self)@.style.auth.insert(name@, value@),
                    dflt: old(self)@.style.dflt,
                },
                ..old(self)@
            }),
    {
        self.style.set(name, value);
    }

    /// Looks up a style property on this element, the authored layer
    /// winning over the default layer.
    pub fn get_style_property(&self, name: &str) -> (r: Option<&PrimitiveValue>)
        requires
            self.wf(),
        ensures
            (r is Some) == (spec_style_get(self@.style, name@) is Some),
            r matches Some(v) ==> spec_style_get(self@.style, name@) matches Some(m) && v@ == m,
    {
        self.style.get(name)
    }

    /// Replaces the whole style store.
    pub fn set_style_properties(&mut self, properties: ElementStyleProperties)
        requires
            old(self).wf(),
            properties.wf(),
        ensures
            final(self).wf(),
            final(self)@ == (ElementModel { style: properties@, ..old(self)@ }),
    {
        self.style = properties;
    }

    /// The element's style store.
    pub fn get_style_properties(&self) -> (r: &ElementStyleProperties)
        ensures
            r@ == self@.style,
            r.wf() == self.style.wf(),
    {
        &self.style
    }

    /// Whether the authored style layer holds the property.
    pub fn has_style_property(&self, name: &str) -> (r: bool)
        requires
            self.wf(),
        ensures
            r == self@.style.auth.contains_key(name@),
    {
        self.style.has(name)
    }

    /// Whether this is a text node.
    pub fn is_text_node(&self) -> (r: bool)
        ensures
            r == (self@.tag == "#text"@),
    {
        self.tag == String::from_str("#text")
    }

    /// A fresh, unlinked element with no tag, text, attributes or
    /// styles.
    pub fn default() -> (e: Element)
        ensures
            e.wf(),
            e@ == (ElementModel {
                index: 0,
                tag: Seq::<char>::empty(),
                text: Seq::<char>::empty(),
                parent: 0,
                has_parent: false,
                children: Seq::<usize>::empty(),
                attributes: Map::<Seq<char>, Seq<char>>::empty(),
                style: StyleModel {
                    auth: Map::<Seq<char>, PrimitiveValueModel>::empty(),
                    dflt: Map::<Seq<char>, PrimitiveValueModel>::empty(),
                },
            }),
    {
        let e = Element {
            index: 0,
            tag: String::new(),
            text: String::new(),
            parent: 0,
            has_parent: false,
            children: Vec::new(),
            attributes: StringMap::new(),
            style: ElementStyleProperties::new(),
        };
        assert(e@.children =~= Seq::<usize>::empty());
        e
    }
}

} // verus!
