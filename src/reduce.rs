use vstd::prelude::*;

use crate::layout::copy_chars;
use crate::wrap::{append_chars, is_whitespace_char, is_ws, texts};

verus! {

/// The markdown events that the reducer reads, in the order a markdown parser
/// emits them. `Other` stands for every event the reducer ignores.
#[derive(Debug)]
pub enum MdEvent {
    ParagraphStart,
    ParagraphEnd,
    HeadingStart(u32),
    HeadingEnd,
    ListStart,
    ListEnd,
    ItemStart,
    ItemEnd,
    CodeBlockStart,
    CodeBlockEnd,
    ImageStart(Vec<char>),
    ImageEnd,
    Text(Vec<char>),
    Code(Vec<char>),
    SoftBreak,
    HardBreak,
    Rule,
    Other,
}

/// One block to lay out.
#[derive(Debug)]
pub enum Command {
    Heading(u32, Vec<char>),
    Paragraph(Vec<char>),
    List(Vec<Vec<char>>),
    CodeBlock(Vec<char>),
    Image(Vec<char>),
    Rule,
}

/// A command as plain values.
pub enum CommandView {
    Heading(u32, Seq<char>),
    Paragraph(Seq<char>),
    List(Seq<Seq<char>>),
    CodeBlock(Seq<char>),
    Image(Seq<char>),
    Rule,
}

pub open spec fn command_view(c: Command) -> CommandView {
    match c {
        Command::Heading(l, t) => CommandView::Heading(l, t@),
        Command::Paragraph(t) => CommandView::Paragraph(t@),
        Command::List(items) => CommandView::List(texts(items@)),
        Command::CodeBlock(t) => CommandView::CodeBlock(t@),
        Command::Image(d) => CommandView::Image(d@),
        Command::Rule => CommandView::Rule,
    }
}

pub open spec fn opt_command_view(c: Option<Command>) -> Option<CommandView> {
    match c {
        Some(c) => Some(command_view(c)),
        None => None,
    }
}

pub open spec fn trim_start(s: Seq<char>) -> Seq<char>
    decreases s.len(),
{
    if s.len() > 0 && is_ws(s[0]) {
        trim_start(s.skip(1))
    } else {
        s
    }
}

pub open spec fn trim_end(s: Seq<char>) -> Seq<char>
    decreases s.len(),
{
    if s.len() > 0 && is_ws(s.last()) {
        trim_end(s.drop_last())
    } else {
        s
    }
}

/// `s` without leading and trailing whitespace, as `str::trim` gives it.
pub open spec fn trim(s: Seq<char>) -> Seq<char> {
    trim_end(trim_start(s))
}

/// `s` without leading and trailing whitespace.
pub fn trim_chars(s: &Vec<char>) -> (r: Vec<char>)
    ensures
        r@ == trim(s@),
{
    let mut a: usize = 0;
    assert(s@.skip(0) =~= s@);
    while a < s.len() && is_whitespace_char(s[a])
        invariant
            a <= s@.len(),
            trim_start(s@) == trim_start(s@.skip(a as int)),
        decreases s.len() - a,
    {
        assert(s@.skip(a as int).skip(1) =~= s@.skip(a as int + 1));
        a += 1;
    }
    let ghost t = s@.skip(a as int);
    assert(trim_start(s@) == t);
    let mut b: usize = s.len();
    assert(t =~= s@.subrange(a as int, b as int));
    while b > a && is_whitespace_char(s[b - 1])
        invariant
            a <= b <= s@.len(),
            trim_end(t) == trim_end(s@.subrange(a as int, b as int)),
        decreases b - a,
    {
        assert(s@.subrange(a as int, b as int).drop_last() =~= s@.subrange(a as int, b - 1));
        b -= 1;
    }
    let mut r: Vec<char> = Vec::new();
    let mut i: usize = a;
    while i < b
        invariant
            a <= i <= b,
            b <= s@.len(),
            r@ == s@.subrange(a as int, i as int),
        decreases b - i,
    {
        r.push(s[i]);
        i += 1;
        assert(r@ =~= s@.subrange(a as int, i as int));
    }
    r
}

/// What the reducer has gathered so far, as plain values.
pub struct ReducerView {
    pub text: Seq<char>,
    pub heading: Option<u32>,
    pub items: Seq<Seq<char>>,
    pub item: Option<Seq<char>>,
    pub in_paragraph: bool,
    pub in_code: bool,
    pub code: Seq<char>,
    pub image: Option<Seq<char>>,
}

pub open spec fn opt_text(o: Option<Vec<char>>) -> Option<Seq<char>> {
    match o {
        Some(v) => Some(v@),
        None => None,
    }
}

/// The effect of one event: the state after it, and the command it completes.
pub open spec fn step_spec(s: ReducerView, e: MdEvent) -> (ReducerView, Option<CommandView>) {
    match e {
        MdEvent::ParagraphStart => (ReducerView { in_paragraph: true, text: Seq::empty(), ..s }, None),
        MdEvent::ParagraphEnd => (
            ReducerView { in_paragraph: false, text: Seq::empty(), ..s },
            if s.in_paragraph {
                Some(CommandView::Paragraph(trim(s.text)))
            } else {
                None
            },
        ),
        MdEvent::HeadingStart(level) => (
            ReducerView { heading: Some(level), text: Seq::empty(), ..s },
            None,
        ),
        MdEvent::HeadingEnd => (
            ReducerView { heading: None, text: Seq::empty(), ..s },
            match s.heading {
                Some(level) => Some(CommandView::Heading(level, trim(s.text))),
                None => None,
            },
        ),
        MdEvent::ListStart => (ReducerView { items: Seq::empty(), ..s }, None),
        MdEvent::ListEnd => (
            ReducerView { items: Seq::empty(), ..s },
            if s.items.len() > 0 {
                Some(CommandView::List(s.items))
            } else {
                None
            },
        ),
        MdEvent::ItemStart => (ReducerView { item: Some(Seq::empty()), ..s }, None),
        MdEvent::ItemEnd => (
            match s.item {
                Some(t) => if trim(t).len() > 0 {
                    ReducerView { item: None, items: s.items.push(trim(t)), ..s }
                } else {
                    ReducerView { item: None, ..s }
                },
                None => s,
            },
            None,
        ),
        MdEvent::CodeBlockStart => (ReducerView { in_code: true, code: Seq::empty(), ..s }, None),
        MdEvent::CodeBlockEnd => (
            ReducerView { in_code: false, code: Seq::empty(), ..s },
            if s.in_code {
                Some(CommandView::CodeBlock(s.code))
            } else {
                None
            },
        ),
        MdEvent::ImageStart(dest) => (ReducerView { image: Some(dest@), ..s }, None),
        MdEvent::ImageEnd => (
            ReducerView { image: None, ..s },
            match s.image {
                Some(d) => Some(CommandView::Image(d)),
                None => None,
            },
        ),
        MdEvent::Text(t) => (
            if s.in_code {
                ReducerView { code: s.code + t@, ..s }
            } else {
                match s.item {
                    Some(it) => ReducerView { item: Some(it + t@), ..s },
                    None => ReducerView { text: s.text + t@, ..s },
                }
            },
            None,
        ),
        MdEvent::Code(t) => (
            match s.item {
                Some(it) => ReducerView { item: Some(it + t@), ..s },
                None => ReducerView { text: s.text + t@, ..s },
            },
            None,
        ),
        MdEvent::SoftBreak => (
            if s.in_code {
                ReducerView { code: s.code.push('\n'), ..s }
            } else {
                ReducerView { text: s.text.push(' '), ..s }
            },
            None,
        ),
        MdEvent::HardBreak => (
            if s.in_code {
                ReducerView { code: s.code.push('\n'), ..s }
            } else {
                ReducerView { text: s.text.push('\n'), ..s }
            },
            None,
        ),
        MdEvent::Rule => (s, Some(CommandView::Rule)),
        MdEvent::Other => (s, None),
    }
}

/// The reducer's state: the text of the open paragraph or heading, the level of
/// the open heading, the items of the open list and the text of the open item,
/// the text of the open code block, and the destination of the open image.
pub struct Reducer {
    pub text: Vec<char>,
    pub heading: Option<u32>,
    pub items: Vec<Vec<char>>,
    pub item: Option<Vec<char>>,
    pub in_paragraph: bool,
    pub in_code: bool,
    pub code: Vec<char>,
    pub image: Option<Vec<char>>,
}

impl Reducer {
    pub open spec fn view(&self) -> ReducerView {
        ReducerView {
            text: self.text@,
            heading: self.heading,
            items: texts(self.items@),
            item: opt_text(self.item),
            in_paragraph: self.in_paragraph,
            in_code: self.in_code,
            code: self.code@,
            image: opt_text(self.image),
        }
    }

    pub open spec fn new_view() -> ReducerView {
        ReducerView {
            text: Seq::empty(),
            heading: None,
            items: Seq::empty(),
            item: None,
            in_paragraph: false,
            in_code: false,
            code: Seq::empty(),
            image: None,
        }
    }

    /// A reducer with nothing open.
    pub fn new() -> (r: Reducer)
        ensures
            r.view() == Reducer::new_view(),
    {
        let r = Reducer {
            text: Vec::new(),
            heading: None,
            items: Vec::new(),
            item: None,
            in_paragraph: false,
            in_code: false,
            code: Vec::new(),
            image: None,
        };
        assert(texts(r.items@) =~= Seq::<Seq<char>>::empty());
        r
    }

    /// Reads one event; returns the command that it completes, if any.
    pub fn step(&mut self, e: &MdEvent) -> (r: Option<Command>)
        ensures
            (final(self).view(), opt_command_view(r)) == step_spec(old(self).view(), *e),
    {
        match e {
            MdEvent::ParagraphStart => {
                self.in_paragraph = true;
                self.text = Vec::new();
                None
            },
            MdEvent::ParagraphEnd => {
                let r = if self.in_paragraph {
                    Some(Command::Paragraph(trim_chars(&self.text)))
                } else {
                    None
                };
                self.in_paragraph = false;
                self.text = Vec::new();
                r
            },
            MdEvent::HeadingStart(level) => {
                self.heading = Some(*level);
                self.text = Vec::new();
                None
            },
            MdEvent::HeadingEnd => {
                let r = match self.heading {
                    Some(level) => Some(Command::Heading(level, trim_chars(&self.text))),
                    None => None,
                };
                self.heading = None;
                self.text = Vec::new();
                r
            },
            MdEvent::ListStart => {
                self.items = Vec::new();
                assert(texts(self.items@) =~= Seq::<Seq<char>>::empty());
                None
            },
            MdEvent::ListEnd => {
                let mut items: Vec<Vec<char>> = Vec::new();
                core::mem::swap(&mut items, &mut self.items);
                assert(texts(self.items@) =~= Seq::<Seq<char>>::empty());
                if items.len() > 0 {
                    Some(Command::List(items))
                } else {
                    None
                }
            },
            MdEvent::ItemStart => {
                self.item = Some(Vec::new());
                None
            },
            MdEvent::ItemEnd => {
                match self.item.take() {
                    Some(t) => {
                        let trimmed = trim_chars(&t);
                        if trimmed.len() > 0 {
                            let ghost before = self.items@;
                            self.items.push(trimmed);
                            assert(texts(self.items@) =~= texts(before).push(trimmed@));
                        }
                    },
                    None => {},
                }
                None
            },
            MdEvent::CodeBlockStart => {
                self.in_code = true;
                self.code = Vec::new();
                None
            },
            MdEvent::CodeBlockEnd => {
                let mut code: Vec<char> = Vec::new();
                core::mem::swap(&mut code, &mut self.code);
                let r = if self.in_code {
                    Some(Command::CodeBlock(code))
                } else {
                    None
                };
                self.in_code = false;
                r
            },
            MdEvent::ImageStart(dest) => {
                self.image = Some(copy_chars(dest));
                None
            },
            MdEvent::ImageEnd => {
                match self.image.take() {
                    Some(d) => Some(Command::Image(d)),
                    None => None,
                }
            },
            MdEvent::Text(t) => {
                if self.in_code {
                    append_chars(&mut self.code, t);
                } else {
                    match &mut self.item {
                        Some(it) => append_chars(it, t),
                        None => append_chars(&mut self.text, t),
                    }
                }
                None
            },
            MdEvent::Code(t) => {
                match &mut self.item {
                    Some(it) => append_chars(it, t),
                    None => append_chars(&mut self.text, t),
                }
                None
            },
            MdEvent::SoftBreak => {
                if self.in_code {
                    self.code.push('\n');
                } else {
                    self.text.push(' ');
                }
                None
            },
            MdEvent::HardBreak => {
                if self.in_code {
                    self.code.push('\n');
                } else {
                    self.text.push('\n');
                }
                None
            },
            MdEvent::Rule => Some(Command::Rule),
            MdEvent::Other => None,
        }
    }
}

/// Reading `events` in order from state `s`: the state after, and the commands
/// completed on the way.
pub open spec fn run_events(s: ReducerView, events: Seq<MdEvent>) -> (ReducerView, Seq<CommandView>)
    decreases events.len(),
{
    if events.len() == 0 {
        (s, Seq::empty())
    } else {
        let (s1, cmds) = run_events(s, events.drop_last());
        let (s2, c) = step_spec(s1, events.last());
        match c {
            Some(c) => (s2, cmds.push(c)),
            None => (s2, cmds),
        }
    }
}

pub open spec fn command_views(v: Seq<Command>) -> Seq<CommandView> {
    v.map_values(|c: Command| command_view(c))
}

/// The commands that `events` complete, read from a fresh reducer. A construct
/// still open at the end is dropped.
pub fn commands_of(events: &Vec<MdEvent>) -> (r: Vec<Command>)
    ensures
        command_views(r@) == run_events(Reducer::new_view(), events@).1,
{
    let mut reducer = Reducer::new();
    let mut cmds: Vec<Command> = Vec::new();
    let mut i: usize = 0;
    while i < events.len()
        invariant
            i <= events@.len(),
            (reducer.view(), command_views(cmds@)) == run_events(
                Reducer::new_view(),
                events@.take(i as int),
            ),
        decreases events.len() - i,
    {
        assert(events@.take(i as int + 1).drop_last() =~= events@.take(i as int));
        let c = reducer.step(&events[i]);
        match c {
            Some(c) => {
                let ghost before = cmds@;
                cmds.push(c);
                assert(command_views(cmds@) =~= command_views(before).push(command_view(c)));
            },
            None => {},
        }
        i += 1;
    }
    assert(events@.take(events@.len() as int) =~= events@);
    cmds
}

} // verus!
