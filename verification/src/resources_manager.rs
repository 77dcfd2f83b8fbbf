//! External resources resolved ahead of layout and rendering.
//!
//! Fonts are held as resolved metric models keyed by font name;
//! images are remembered by path. The manager is filled once by the
//! preprocessing step and then read by the layout and render passes.

use vstd::prelude::*;
use crate::font::{Font, FontModel};
use crate::string_map::StringMap;

verus! {

/// A loaded font: its name and its resolved metrics.
#[derive(Debug)]
pub struct FontResource {
    pub name: String,
    pub font: Font,
}

/// Mathematical model of a [`FontResource`].
#[verifier::ext_equal]
pub struct FontResourceModel {
    pub name: Seq<char>,
    pub font: FontModel,
}

impl View for FontResource {
    type V = FontResourceModel;

    open spec fn view(&self) -> FontResourceModel {
        FontResourceModel { name: self.name@, font: self.font@ }
    }
}

/// A referenced image.
#[derive(Debug)]
pub struct ImageResource {
    pub path: String,
}

impl View for ImageResource {
    type V = Seq<char>;

    open spec fn view(&self) -> Seq<char> {
        self.path@
    }
}

/// The resolved resources of one conversion.
#[derive(Debug)]
pub struct ResourcesManager {
    pub fonts: StringMap<FontResource>,
    pub images: StringMap<ImageResource>,
}

impl ResourcesManager {
    /// Both tables keep their keys unique, and every stored font is
    /// well formed.
    pub open spec fn wf(&self) -> bool {
        &&& self.fonts.wf()
        &&& self.images.wf()
    }

    /// Registers a font under a name.
    pub fn add_font(&mut self, name: String, font: FontResource)
        requires
            old(self).wf(),
        ensures
            final(self).wf(),
            final(self).fonts@ == old(self).fonts@.insert(name@, font@),
            final(self).images@ == old(self).images@,
    {
        self.fonts.set(name, font);
    }

    /// The font registered under a name, if any.
    pub fn get_font(&self, name: &String) -> (r: Option<&FontResource>)
        requires
            self.wf(),
        ensures
            (r is Some) == self.fonts@.contains_key(name@),
            r matches Some(f) ==> f@ == self.fonts@[name@],
    {
        self.fonts.get(name)
    }

    /// Registers an image under its path.
    pub fn add_image(&mut self, path: String, image: ImageResource)
        requires
            old(self).wf(),
        ensures
            final(self).wf(),
            final(self).images@ == old(self).images@.insert(path@, image@),
            final(self).fonts@ == old(self).fonts@,
    {
        self.images.set(path, image);
    }

    /// The image registered under a path, if any.
    pub fn get_image(&self, path: &String) -> (r: Option<&ImageResource>)
        requires
            self.wf(),
        ensures
            (r is Some) == self.images@.contains_key(path@),
            r matches Some(i) ==> i@ == self.images@[path@],
    {
        self.images.get(path)
    }

    /// An empty resource set.
    pub fn new() -> (m: ResourcesManager)
        ensures
            m.wf(),
            m.fonts@ == Map::<Seq<char>, FontResourceModel>::empty(),
            m.images@ == Map::<Seq<char>, Seq<char>>::empty(),
    {
        ResourcesManager { fonts: StringMap::new(), images: StringMap::new() }
    }
}

} // verus!
