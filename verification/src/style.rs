//! The closed set of inline formatting marks.

use vstd::prelude::*;

verus! {

/// One inline formatting mark. The color-bearing marks carry the color name
/// that the wrapper tag supplied.
#[derive(Clone, Debug, PartialEq, Eq)]
pub enum Style {
    Bold,
    Italic,
    Underline,
    Strike,
    Code,
    TextColor(String),
    BackgroundColor(String),
}

/// The ghost counterpart of [`Style`]: the color name is a character sequence.
#[verifier::ext_equal]
pub enum StyleView {
    Bold,
    Italic,
    Underline,
    Strike,
    Code,
    TextColor(Seq<char>),
    BackgroundColor(Seq<char>),
}

impl View for Style {
    type V = StyleView;

    open spec fn view(&self) -> StyleView {
        match self {
            Style::Bold => StyleView::Bold,
            Style::Italic => StyleView::Italic,
            Style::Underline => StyleView::Underline,
            Style::Strike => StyleView::Strike,
            Style::Code => StyleView::Code,
            Style::TextColor(c) => StyleView::TextColor(c@),
            Style::BackgroundColor(c) => StyleView::BackgroundColor(c@),
        }
    }
}

impl StyleView {
    /// The mark's tag name, which also keys the rendered styles object.
    pub open spec fn spec_name(self) -> Seq<char> {
        match self {
            StyleView::Bold => "bold"@,
            StyleView::Italic => "italic"@,
            StyleView::Underline => "underline"@,
            StyleView::Strike => "strike"@,
            StyleView::Code => "code"@,
            StyleView::TextColor(_) => "textColor"@,
            StyleView::BackgroundColor(_) => "backgroundColor"@,
        }
    }
}

/// The view of a style stack: each mark's ghost counterpart, outermost first.
pub open spec fn styles_view(styles: Seq<Style>) -> Seq<StyleView> {
    Seq::new(styles.len(), |i: int| styles[i]@)
}

/// A copy of a style stack, equal under the view.
#[verifier::loop_isolation(false)]
pub fn duplicate_styles(styles: &Vec<Style>) -> (r: Vec<Style>)
    ensures
        styles_view(r@) == styles_view(styles@),
{
    let mut out: Vec<Style> = Vec::new();
    let n = styles.len();
    let mut i: usize = 0;
    while i < n
        invariant
            i <= n,
            n == styles@.len(),
            out@.len() == i,
            forall|j: int| 0 <= j < i ==> out@[j]@ == styles@[j]@,
        decreases n - i,
    {
        let s = styles[i].duplicate();
        out.push(s);
        i += 1;
    }
    proof {
        assert(styles_view(out@) =~= styles_view(styles@));
    }
    out
}

impl Style {
    /// A copy of the mark.
    pub fn duplicate(&self) -> (r: Style)
        ensures
            r@ == self@,
    {
        match self {
            Style::Bold => Style::Bold,
            Style::Italic => Style::Italic,
            Style::Underline => Style::Underline,
            Style::Strike => Style::Strike,
            Style::Code => Style::Code,
            Style::TextColor(c) => Style::TextColor(c.clone()),
            Style::BackgroundColor(c) => Style::BackgroundColor(c.clone()),
        }
    }

    /// The mark's tag name.
    pub fn name(&self) -> (r: &str)
        ensures
            r@ == self@.spec_name(),
    {
        match self {
            Style::Bold => "bold",
            Style::Italic => "italic",
            Style::Underline => "underline",
            Style::Strike => "strike",
            Style::Code => "code",
            Style::TextColor(_) => "textColor",
            Style::BackgroundColor(_) => "backgroundColor",
        }
    }
}

} // verus!
