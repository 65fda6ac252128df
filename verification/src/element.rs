//! The tree of elements that a plugin hands to its host for rendering.
use vstd::prelude::*;
use vstd::string::*;

verus! {

#[derive(Debug, Clone, Copy, PartialEq, Eq, Structural)]
pub enum ElementType {
    Div,
    P,
    Span,
    Button,
    Input,
    Switch,
    Video,
    Card,
    Select,
    Choice,
    Progress,
    Image,
}

#[derive(Debug, Clone, Copy, PartialEq, Eq, Structural)]
pub enum UiEvent {
    Click,
    Input,
    Change,
    /// Any other event of the host.
    Other,
}

/// One style of an element. Lengths are in pixels, shares in thousandths.
#[derive(Debug, Clone, Copy)]
pub enum Style {
    Flex,
    Row,
    Column,
    WidthFull,
    Width(u32),
    Height(u32),
    Padding(u32),
    PaddingTop(u32),
    PaddingBottom(u32),
    PaddingLeft(u32),
    PaddingRight(u32),
    MarginTop(u32),
    MarginBottom(u32),
    MarginLeft(u32),
    MarginRight(u32),
    Gap(u32),
    /// Size of the text.
    Size(u32),
    Radius(u32),
    Border(u32, &'static str),
    Bg(&'static str),
    TextColor(&'static str),
    Transition(&'static str),
    AlignCenter,
    AlignStart,
    AlignEnd,
    JustifyCenter,
    FlexGrow(u32),
    Opacity(u32),
    WithoutDefaults,
    Disabled,
}

#[derive(Debug)]
pub struct Element {
    pub kind: ElementType,
    pub text: Option<String>,
    pub styles: Vec<Style>,
    pub props: Vec<(String, String)>,
    pub events: Vec<(UiEvent, String)>,
    pub children: Vec<Element>,
}

/// The mathematical value of an [`Element`].
pub struct ElementView {
    pub kind: ElementType,
    pub text: Option<Seq<char>>,
    pub styles: Seq<Style>,
    pub props: Seq<(Seq<char>, Seq<char>)>,
    pub events: Seq<(UiEvent, Seq<char>)>,
    pub children: Seq<ElementView>,
}

/// The values of some elements.
pub open spec fn children_view(s: Seq<Element>) -> Seq<ElementView>
    decreases s,
{
    if s.len() == 0 {
        Seq::empty()
    } else {
        children_view(s.drop_last()).push(s.last().view())
    }
}

impl Element {
    pub open spec fn view(&self) -> ElementView
        decreases self,
    {
        ElementView {
            kind: self.kind,
            text: match self.text {
                Some(t) => Some(t@),
                None => None,
            },
            styles: self.styles@,
            props: self.props@.map_values(|p: (String, String)| (p.0@, p.1@)),
            events: self.events@.map_values(|e: (UiEvent, String)| (e.0, e.1@)),
            children: children_view(self.children@),
        }
    }
}

impl ElementView {
    /// An element without a text.
    pub open spec fn bare(kind: ElementType) -> ElementView {
        ElementView {
            kind,
            text: None,
            styles: Seq::empty(),
            props: Seq::empty(),
            events: Seq::empty(),
            children: Seq::empty(),
        }
    }

    /// An element with a text.
    pub open spec fn new(kind: ElementType, text: Seq<char>) -> ElementView {
        ElementView { text: Some(text), ..ElementView::bare(kind) }
    }

    pub open spec fn style(self, s: Style) -> ElementView {
        ElementView { styles: self.styles.push(s), ..self }
    }

    pub open spec fn prop(self, name: Seq<char>, value: Seq<char>) -> ElementView {
        ElementView { props: self.props.push((name, value)), ..self }
    }

    pub open spec fn on(self, event: UiEvent, id: Seq<char>) -> ElementView {
        ElementView { events: self.events.push((event, id)), ..self }
    }

    pub open spec fn child(self, c: ElementView) -> ElementView {
        ElementView { children: self.children.push(c), ..self }
    }
}

impl Element {
    pub fn bare(kind: ElementType) -> (r: Element)
        ensures
            r@ == ElementView::bare(kind),
    {
        let r = Element {
            kind,
            text: None,
            styles: Vec::new(),
            props: Vec::new(),
            events: Vec::new(),
            children: Vec::new(),
        };
        proof {
            assert(r@.props =~= Seq::empty());
            assert(r@.events =~= Seq::empty());
        }
        r
    }

    pub fn new(kind: ElementType, text: &str) -> (r: Element)
        ensures
            r@ == ElementView::new(kind, text@),
    {
        let mut r = Element::bare(kind);
        r.text = Some(text.to_owned());
        r
    }

    pub fn style(self, s: Style) -> (r: Element)
        ensures
            r@ == self@.style(s),
    {
        let mut r = self;
        r.styles.push(s);
        r
    }

    pub fn prop(self, name: &str, value: &str) -> (r: Element)
        ensures
            r@ == self@.prop(name@, value@),
    {
        let mut r = self;
        r.props.push((name.to_owned(), value.to_owned()));
        assert(r@.props =~= self@.props.push((name@, value@)));
        r
    }

    pub fn on(self, event: UiEvent, id: &str) -> (r: Element)
        ensures
            r@ == self@.on(event, id@),
    {
        let mut r = self;
        r.events.push((event, id.to_owned()));
        assert(r@.events =~= self@.events.push((event, id@)));
        r
    }

    pub fn child(self, c: Element) -> (r: Element)
        ensures
            r@ == self@.child(c@),
    {
        let mut r = self;
        r.children.push(c);
        assert(r.children@.drop_last() =~= self.children@);
        r
    }
}

// ---------------------------------------------------------------- laws

impl ElementView {
    /// Whether an event on the element, or on one inside it, has an id.
    pub open spec fn fires(self, event: UiEvent, id: Seq<char>) -> bool
        decreases self,
    {
        ||| self.events.contains((event, id))
        ||| exists|i: int|
            0 <= i < self.children.len() && (#[trigger] self.children[i]).fires(event, id)
    }

    /// Whether the element, or one inside it, has a text.
    pub open spec fn shows(self, text: Seq<char>) -> bool
        decreases self,
    {
        ||| self.text == Some(text)
        ||| exists|i: int|
            0 <= i < self.children.len() && (#[trigger] self.children[i]).shows(text)
    }

    /// What is put into an element is part of it, behind what was there.
    pub proof fn children_are_part(self, c: ElementView, event: UiEvent, id: Seq<char>, t: Seq<char>)
        ensures
            self.child(c).children.len() == self.children.len() + 1,
            self.child(c).children.last() == c,
            self.child(c).children.drop_last() == self.children,
            self.child(c).fires(event, id) <==> self.fires(event, id) || c.fires(event, id),
            self.child(c).shows(t) <==> self.shows(t) || c.shows(t),
    {
        let n = self.child(c);
        assert(n.children.drop_last() =~= self.children);
        let k = self.children.len() as int;
        assert(n.children[k] == c);
        if self.fires(event, id) && !self.events.contains((event, id)) {
            let i = choose|i: int|
                0 <= i < self.children.len() && (#[trigger] self.children[i]).fires(event, id);
            assert(n.children[i].fires(event, id));
        }
        if c.fires(event, id) {
            assert(n.children[k].fires(event, id));
        }
        if n.fires(event, id) && !n.events.contains((event, id)) {
            let i = choose|i: int|
                0 <= i < n.children.len() && (#[trigger] n.children[i]).fires(event, id);
            if i < k {
                assert(self.children[i].fires(event, id));
            }
        }
        if self.shows(t) && self.text != Some(t) {
            let i = choose|i: int|
                0 <= i < self.children.len() && (#[trigger] self.children[i]).shows(t);
            assert(n.children[i].shows(t));
        }
        if c.shows(t) {
            assert(n.children[k].shows(t));
        }
        if n.shows(t) && n.text != Some(t) {
            let i = choose|i: int|
                0 <= i < n.children.len() && (#[trigger] n.children[i]).shows(t);
            if i < k {
                assert(self.children[i].shows(t));
            }
        }
    }

    /// How an element looks changes neither what it says nor what it does.
    pub proof fn looks_change_nothing(self, s: Style, event: UiEvent, id: Seq<char>, t: Seq<char>)
        ensures
            self.style(s).fires(event, id) == self.fires(event, id),
            self.style(s).shows(t) == self.shows(t),
            self.style(s).children == self.children,
    {
        let n = self.style(s);
        if self.fires(event, id) && !self.events.contains((event, id)) {
            let i = choose|i: int|
                0 <= i < self.children.len() && (#[trigger] self.children[i]).fires(event, id);
            assert(n.children[i].fires(event, id));
        }
        if n.fires(event, id) && !n.events.contains((event, id)) {
            let i = choose|i: int|
                0 <= i < n.children.len() && (#[trigger] n.children[i]).fires(event, id);
            assert(self.children[i].fires(event, id));
        }
        if self.shows(t) && self.text != Some(t) {
            let i = choose|i: int|
                0 <= i < self.children.len() && (#[trigger] self.children[i]).shows(t);
            assert(n.children[i].shows(t));
        }
        if n.shows(t) && n.text != Some(t) {
            let i = choose|i: int|
                0 <= i < n.children.len() && (#[trigger] n.children[i]).shows(t);
            assert(self.children[i].shows(t));
        }
    }

    /// An element has the handlers that were put on it, and the text that it was made
    /// with.
    pub proof fn handlers_are_kept(self, event: UiEvent, id: Seq<char>, kind: ElementType, t: Seq<char>)
        ensures
            self.on(event, id).fires(event, id),
            self.on(event, id).children == self.children,
            self.on(event, id).text == self.text,
            ElementView::new(kind, t).shows(t),
            ElementView::new(kind, t).children.len() == 0,
            ElementView::bare(kind).children.len() == 0,
    {
        let n = self.on(event, id);
        assert(n.events[self.events.len() as int] == (event, id));
    }
}

} // verus!
