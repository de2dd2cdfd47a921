//! The traits through which a struct is written as commented TOML.

use vstd::prelude::*;

use crate::document::{Document, document_text, render_document, render_into};

verus! {

/// A struct that can be written as TOML with its doc comments as `#` lines.
///
/// An implementation supplies [`TomlComment::document`]: the struct's doc
/// comment lines and, for each field in order, its name, its doc comment
/// lines and its value. The provided methods write the text of
/// [`crate::document::render_document`] on a document that `document`
/// returns; an implementation that writes its own `to_commented_toml` or
/// `_render` is held to writing the text of some document.
pub trait TomlComment {
    /// The struct's doc comments and fields, with their current values.
    fn document(&self) -> Document;

    /// The struct as commented TOML.
    fn to_commented_toml(&self) -> (s: String)
        ensures
            exists|d: Document| s@ == document_text(d, seq![]),
        default_ensures
            exists|d: Document| call_ensures(Self::document, (self,), d) && s@ == document_text(
                d,
                seq![],
            ),
    {
        let doc = self.document();
        render_document(&doc)
    }

    /// Appends the struct's commented TOML to `out`, as the content of the
    /// section `prefix` (the top level when it is empty).
    fn _render(&self, out: &mut String, prefix: &str)
        ensures
            exists|d: Document| final(out)@ == old(out)@ + document_text(d, prefix@),
        default_ensures
            exists|d: Document| call_ensures(Self::document, (self,), d) && final(out)@ == old(out)@
                + document_text(d, prefix@),
    {
        let doc = self.document();
        render_into(&doc, out, prefix);
    }
}

/// A struct with a default value, whose default can be written as commented
/// TOML.
pub trait TomlCommentDefault: TomlComment + Default {
    /// The default value as commented TOML: what `to_commented_toml` returns
    /// for a value that `default` returns.
    fn default_toml() -> (s: String)
        ensures
            exists|v: Self| call_ensures(Self::default, (), v) && call_ensures(
                Self::to_commented_toml,
                (&v,),
                s,
            ),
    ;
}

impl<T: TomlComment + Default> TomlCommentDefault for T {
    fn default_toml() -> (s: String) {
        let v = T::default();
        let s = v.to_commented_toml();
        assert(call_ensures(T::default, (), v));
        assert(call_ensures(T::to_commented_toml, (&v,), s));
        s
    }
}

impl<T: TomlComment + ?Sized> TomlComment for &T {
    /// The document of the value referred to.
    fn document(&self) -> (d: Document)
        ensures
            call_ensures(T::document, (*self,), d),
    {
        (**self).document()
    }

    /// What the value referred to writes.
    fn to_commented_toml(&self) -> (s: String)
        ensures
            call_ensures(T::to_commented_toml, (*self,), s),
    {
        (**self).to_commented_toml()
    }

    /// What the value referred to appends: `out` goes from its old to its
    /// final contents through a call of `T::_render`.
    fn _render(&self, out: &mut String, prefix: &str)
        ensures
            exists|o: &mut String|
                call_ensures(T::_render, (*self, o, prefix), ()) && *o == *old(out) && *final(o)
                    == *final(out),
    {
        (**self)._render(out, prefix)
    }
}

impl<T: TomlComment + ?Sized> TomlComment for &mut T {
    /// The document of the value referred to.
    fn document(&self) -> (d: Document)
        ensures
            call_ensures(T::document, (&*old(*self),), d),
    {
        (**self).document()
    }

    /// What the value referred to writes.
    fn to_commented_toml(&self) -> (s: String)
        ensures
            call_ensures(T::to_commented_toml, (&*old(*self),), s),
    {
        (**self).to_commented_toml()
    }

    /// What the value referred to appends: `out` goes from its old to its
    /// final contents through a call of `T::_render`.
    fn _render(&self, out: &mut String, prefix: &str)
        ensures
            exists|o: &mut String|
                call_ensures(T::_render, (&*old(*self), o, prefix), ()) && *o == *old(out)
                    && *final(o) == *final(out),
    {
        (**self)._render(out, prefix)
    }
}

} // verus!
