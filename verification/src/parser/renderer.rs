//! The sink that rendering writes to: tags, text and line breaks, as HTML.
use vstd::prelude::*;
use vstd::string::*;
use crate::common::text::{escaped, push_escaped, push_text, string_from};

verus! {

/// The attributes `attrs` as they stand inside a tag: each one a blank, the
/// name, `="`, the value and `"`, name and value escaped.
pub open spec fn attrs_text(attrs: Seq<(Seq<char>, Seq<char>)>) -> Seq<char>
    decreases attrs.len(),
{
    if attrs.len() == 0 {
        Seq::empty()
    } else {
        attrs_text(attrs.drop_last()) + seq![' '] + escaped(attrs.last().0) + seq!['=', '"']
            + escaped(attrs.last().1) + seq!['"']
    }
}

/// `out` followed by the opening tag `<tag attrs>`.
pub open spec fn opened(out: Seq<char>, tag: Seq<char>, attrs: Seq<(Seq<char>, Seq<char>)>) -> Seq<
    char,
> {
    out + seq!['<'] + tag + attrs_text(attrs) + seq!['>']
}

/// `out` followed by the closing tag `</tag>`.
pub open spec fn closed(out: Seq<char>, tag: Seq<char>) -> Seq<char> {
    out + seq!['<', '/'] + tag + seq!['>']
}

/// `out` followed by `text`, escaped.
pub open spec fn with_text(out: Seq<char>, text: Seq<char>) -> Seq<char> {
    out + escaped(text)
}

/// `out` followed by `text` as it is.
pub open spec fn with_raw(out: Seq<char>, text: Seq<char>) -> Seq<char> {
    out + text
}

/// `out` after a request for a line break: one is added unless `out` is
/// empty or already ends with one.
pub open spec fn broken(out: Seq<char>) -> Seq<char> {
    if out.len() == 0 || out.last() == '\n' {
        out
    } else {
        out.push('\n')
    }
}

/// The attributes of a node as the contracts see them.
pub open spec fn attrs_view(attrs: Seq<(String, String)>) -> Seq<(Seq<char>, Seq<char>)> {
    Seq::new(attrs.len(), |i: int| (attrs[i].0@, attrs[i].1@))
}

/// A copy of the attributes `attrs`.
pub fn clone_attrs(attrs: &Vec<(String, String)>) -> (r: Vec<(String, String)>)
    ensures
        attrs_view(r@) == attrs_view(attrs@),
{
    let mut r: Vec<(String, String)> = Vec::new();
    let n: usize = attrs.len();
    let mut i: usize = 0;
    while i < n
        invariant
            n == attrs@.len(),
            i <= n,
            attrs_view(r@) == attrs_view(attrs@).take(i as int),
        decreases n - i,
    {
        let name = attrs[i].0.clone();
        let value = attrs[i].1.clone();
        let ghost before = r@;
        r.push((name, value));
        assert(attrs_view(r@) =~= attrs_view(before).push((name@, value@)));
        assert(attrs_view(r@) =~= attrs_view(attrs@).take(i + 1));
        i = i + 1;
    }
    assert(attrs_view(attrs@).take(n as int) =~= attrs_view(attrs@));
    r
}

/// A renderer that collects HTML, code point by code point.
pub struct HtmlRenderer {
    out: Vec<char>,
}

impl View for HtmlRenderer {
    type V = Seq<char>;

    closed spec fn view(&self) -> Seq<char> {
        self.out@
    }
}

impl HtmlRenderer {
    /// A renderer that has written nothing.
    pub fn new() -> (r: HtmlRenderer)
        ensures
            r@ == Seq::<char>::empty(),
    {
        HtmlRenderer { out: Vec::new() }
    }

    /// What was written.
    pub fn finish(self) -> (s: String)
        ensures
            s@ == self@,
    {
        string_from(&self.out)
    }

    fn push_attrs(&mut self, attrs: &Vec<(String, String)>)
        ensures
            final(self)@ == old(self)@ + attrs_text(attrs_view(attrs@)),
    {
        let n: usize = attrs.len();
        let mut i: usize = 0;
        while i < n
            invariant
                n == attrs@.len(),
                i <= n,
                self@ == old(self)@ + attrs_text(attrs_view(attrs@).take(i as int)),
            decreases n - i,
        {
            let ghost before = self@;
            self.out.push(' ');
            push_escaped(&mut self.out, attrs[i].0.as_str());
            self.out.push('=');
            self.out.push('"');
            push_escaped(&mut self.out, attrs[i].1.as_str());
            self.out.push('"');
            proof {
                let all = attrs_view(attrs@);
                assert(all.take(i + 1).drop_last() =~= all.take(i as int));
                assert(all.take(i + 1).last() == (attrs@[i as int].0@, attrs@[i as int].1@));
                assert(self@ =~= before + seq![' '] + escaped(attrs@[i as int].0@) + seq!['=', '"']
                    + escaped(attrs@[i as int].1@) + seq!['"']);
                assert(self@ =~= old(self)@ + attrs_text(all.take(i + 1)));
            }
            i = i + 1;
        }
        proof {
            assert(attrs_view(attrs@).take(n as int) =~= attrs_view(attrs@));
        }
    }

    /// Writes the opening tag of `tag` with the attributes `attrs`.
    pub fn open(&mut self, tag: &str, attrs: &Vec<(String, String)>)
        ensures
            final(self)@ == opened(old(self)@, tag@, attrs_view(attrs@)),
    {
        self.out.push('<');
        push_text(&mut self.out, tag);
        self.push_attrs(attrs);
        self.out.push('>');
        proof {
            assert(self@ =~= opened(old(self)@, tag@, attrs_view(attrs@)));
        }
    }

    /// Writes the closing tag of `tag`.
    pub fn close(&mut self, tag: &str)
        ensures
            final(self)@ == closed(old(self)@, tag@),
    {
        self.out.push('<');
        self.out.push('/');
        push_text(&mut self.out, tag);
        self.out.push('>');
        proof {
            assert(self@ =~= closed(old(self)@, tag@));
        }
    }

    /// Writes the tag of an element without content: `tag` with the
    /// attributes `attrs`.
    pub fn self_close(&mut self, tag: &str, attrs: &Vec<(String, String)>)
        ensures
            final(self)@ == opened(old(self)@, tag@, attrs_view(attrs@)),
    {
        self.open(tag, attrs);
    }

    /// Asks for a line break: writes one unless nothing was written yet or
    /// the last thing written is a line break.
    pub fn cr(&mut self)
        ensures
            final(self)@ == broken(old(self)@),
    {
        let n: usize = self.out.len();
        if n > 0 && self.out[n - 1] != '\n' {
            self.out.push('\n');
        }
    }

    /// Writes `text`, escaped.
    pub fn text(&mut self, text: &str)
        ensures
            final(self)@ == with_text(old(self)@, text@),
    {
        push_escaped(&mut self.out, text);
    }

    /// Writes `text` as it is, unescaped.
    pub fn text_raw(&mut self, text: &str)
        ensures
            final(self)@ == with_raw(old(self)@, text@),
    {
        push_text(&mut self.out, text);
    }
}

} // verus!
