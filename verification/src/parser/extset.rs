//! The settings that plugins keep with an engine: one slot for each kind of
//! settings.
use vstd::prelude::*;
use crate::plugins::extra::syntect::SyntectSettings;

verus! {

/// The settings of the plugins of one engine.
pub struct MarkdownItExtSet {
    syntect: Option<SyntectSettings>,
}

impl View for MarkdownItExtSet {
    type V = Option<SyntectSettings>;

    closed spec fn view(&self) -> Option<SyntectSettings> {
        self.syntect
    }
}

/// A kind of settings: a type whose value an engine keeps in a slot of its
/// own.
pub trait MarkdownItExt: Sized {
    /// The value in this kind's slot of `set`.
    spec fn slot(set: Option<SyntectSettings>) -> Option<Self>;

    /// `set` with `value` in this kind's slot.
    spec fn filled(set: Option<SyntectSettings>, value: Self) -> Option<SyntectSettings>;

    /// Puts the value into its slot of `set`.
    fn put(self, set: &mut MarkdownItExtSet)
        ensures
            final(set)@ == Self::filled(old(set)@, self),
            Self::slot(final(set)@) == Some(self),
    ;

    /// The value in this kind's slot of `set`.
    fn fetch(set: &MarkdownItExtSet) -> (r: Option<&Self>)
        ensures
            r matches Some(v) ==> Self::slot(set@) == Some(*v),
            r is None ==> Self::slot(set@) is None,
    ;
}

impl MarkdownItExt for SyntectSettings {
    open spec fn slot(set: Option<SyntectSettings>) -> Option<SyntectSettings> {
        set
    }

    open spec fn filled(set: Option<SyntectSettings>, value: SyntectSettings) -> Option<
        SyntectSettings,
    > {
        Some(value)
    }

    fn put(self, set: &mut MarkdownItExtSet) {
        set.syntect = Some(self);
    }

    fn fetch(set: &MarkdownItExtSet) -> (r: Option<&SyntectSettings>) {
        set.syntect.as_ref()
    }
}

impl MarkdownItExtSet {
    /// Settings with every slot empty.
    pub fn new() -> (r: MarkdownItExtSet)
        ensures
            r@ == None::<SyntectSettings>,
    {
        MarkdownItExtSet { syntect: None }
    }

    /// Puts `value` into the slot of its kind. What the slot held before is
    /// gone.
    pub fn insert<T: MarkdownItExt>(&mut self, value: T)
        ensures
            final(self)@ == T::filled(old(self)@, value),
            T::slot(final(self)@) == Some(value),
    {
        value.put(self);
    }

    /// The value in the slot of the kind `T`; `None` where the slot is
    /// empty.
    pub fn get<T: MarkdownItExt>(&self) -> (r: Option<&T>)
        ensures
            r matches Some(v) ==> T::slot(self@) == Some(*v),
            r is None ==> T::slot(self@) is None,
    {
        T::fetch(self)
    }
}

} // verus!
