//! S-expressions as text.

use vstd::prelude::*;
use vstd::utf8::{char_is_scalar, encode_scalar, encode_utf8};
use crate::model::{deep, group_deep};
use crate::sexpr::{lemma_sexpr_view, SExpr, SExprV};

verus! {

broadcast use group_deep;

/// Why a text is no S-expression, with the offset in bytes at which that shows.
#[derive(Clone, Copy, Debug, PartialEq, Eq, Structural)]
pub enum SExprError {
    UnexpectedEnd,
    UnexpectedClose(usize),
    UnterminatedList(usize),
    EmptyAtom(usize),
    TrailingInput(usize),
}

impl DeepView for SExprError {
    type V = SExprError;

    open spec fn deep_view(&self) -> SExprError {
        *self
    }
}

// ---------------------------------------------------------------------------------------------
// Characters
// ---------------------------------------------------------------------------------------------
/// Whether a character is white space: the characters with the property `White_Space` of Unicode.
pub open spec fn is_space(c: char) -> bool {
    let code = c as u32;
    (9 <= code <= 13) || code == 0x20 || code == 0x85 || code == 0xA0 || code == 0x1680 || (0x2000
        <= code <= 0x200A) || code == 0x2028 || code == 0x2029 || code == 0x202F || code == 0x205F
        || code == 0x3000
}

pub(crate) fn is_space_char(c: char) -> (result: bool)
    ensures
        result == is_space(c),
{
    let code: u32 = c as u32;
    (9 <= code && code <= 13) || code == 0x20 || code == 0x85 || code == 0xA0 || code == 0x1680 || (
    0x2000 <= code && code <= 0x200A) || code == 0x2028 || code == 0x2029 || code == 0x202F || code
        == 0x205F || code == 0x3000
}

/// Whether a character can stand in an atom.
pub open spec fn is_atom_char(c: char) -> bool {
    !is_space(c) && c != '(' && c != ')' && c != ';'
}

/// The number of bytes of a character.
pub open spec fn width(c: char) -> nat {
    let code = c as u32;
    if code < 0x80 {
        1
    } else if code < 0x800 {
        2
    } else if code < 0x10000 {
        3
    } else {
        4
    }
}

fn char_width(c: char) -> (result: usize)
    ensures
        result == width(c),
{
    let code: u32 = c as u32;
    if code < 0x80 {
        1
    } else if code < 0x800 {
        2
    } else if code < 0x10000 {
        3
    } else {
        4
    }
}

/// The number of bytes of the first `count` characters.
pub open spec fn offset_at(chars: Seq<char>, count: int) -> nat
    decreases count,
{
    if count <= 0 {
        0
    } else {
        offset_at(chars, count - 1) + width(chars[count - 1])
    }
}

proof fn lemma_offset_drop_first(chars: Seq<char>, count: int)
    requires
        0 < count <= chars.len(),
    ensures
        offset_at(chars, count) == width(chars[0]) + offset_at(chars.drop_first(), count - 1),
    decreases count,
{
    if count > 1 {
        lemma_offset_drop_first(chars, count - 1);
    }
    assert(offset_at(chars, 0) == 0);
}

/// The number of bytes of a text is that of its encoding.
pub proof fn lemma_offset_is_length(chars: Seq<char>)
    ensures
        offset_at(chars, chars.len() as int) == encode_utf8(chars).len(),
    decreases chars.len(),
{
    if chars.len() > 0 {
        lemma_offset_is_length(chars.drop_first());
        lemma_offset_drop_first(chars, chars.len() as int);
        char_is_scalar(chars[0]);
        assert(encode_scalar(chars[0] as u32).len() == width(chars[0]));
    }
}

proof fn lemma_offset_monotonic(chars: Seq<char>, left: int, right: int)
    requires
        0 <= left <= right,
    ensures
        offset_at(chars, left) <= offset_at(chars, right),
    decreases right - left,
{
    if left < right {
        lemma_offset_monotonic(chars, left, right - 1);
    }
}

// ---------------------------------------------------------------------------------------------
// Grammar
// ---------------------------------------------------------------------------------------------
/// The first position from `from` on that holds no white space.
pub open spec fn space_end(chars: Seq<char>, from: int) -> int
    decreases chars.len() - from,
{
    if 0 <= from < chars.len() && is_space(chars[from]) {
        space_end(chars, from + 1)
    } else {
        from
    }
}

/// The first position from `from` on that belongs to no atom.
pub open spec fn atom_end(chars: Seq<char>, from: int) -> int
    decreases chars.len() - from,
{
    if 0 <= from < chars.len() && is_atom_char(chars[from]) {
        atom_end(chars, from + 1)
    } else {
        from
    }
}

proof fn lemma_ends(chars: Seq<char>, from: int)
    requires
        0 <= from <= chars.len(),
    ensures
        from <= space_end(chars, from) <= chars.len(),
        from <= atom_end(chars, from) <= chars.len(),
    decreases chars.len() - from,
{
    if from < chars.len() {
        lemma_ends(chars, from + 1);
    }
}

/// An expression and the position behind it.
pub type Parsed = Result<(SExprV, int), SExprError>;

/// The expression at `from`.
pub open spec fn expression_at(chars: Seq<char>, from: int) -> Parsed
    decreases chars.len() - from, 0int,
    via expression_decreases
{
    let start = space_end(chars, from);
    let offset = offset_at(chars, start) as usize;
    if !(0 <= from <= start < chars.len()) {
        Err(SExprError::UnexpectedEnd)
    } else if chars[start] == '(' {
        items_at(chars, start + 1, offset, Seq::empty())
    } else if chars[start] == ')' {
        Err(SExprError::UnexpectedClose(offset))
    } else {
        let end = atom_end(chars, start);
        if end == start {
            Err(SExprError::EmptyAtom(offset))
        } else {
            Ok((SExprV::Atom(chars.subrange(start, end)), end))
        }
    }
}

/// The list with `items` and the expressions from `from` on, up to the closing parenthesis. The
/// opening one is at `offset`.
pub open spec fn items_at(
    chars: Seq<char>,
    from: int,
    offset: usize,
    items: Seq<SExprV>,
) -> Parsed
    decreases chars.len() - from, 1int,
    via items_decreases
{
    let start = space_end(chars, from);
    if !(0 <= from <= start < chars.len()) {
        Err(SExprError::UnterminatedList(offset))
    } else if chars[start] == ')' {
        Ok((SExprV::List(items), start + 1))
    } else {
        match expression_at(chars, start) {
            Err(error) => Err(error),
            Ok((item, end)) => if start < end <= chars.len() {
                items_at(chars, end, offset, items.push(item))
            } else {
                Err(SExprError::UnexpectedEnd)
            },
        }
    }
}

#[via_fn]
proof fn expression_decreases(chars: Seq<char>, from: int) {
}

#[via_fn]
proof fn items_decreases(chars: Seq<char>, from: int, offset: usize, items: Seq<SExprV>) {
}

/// The expression that a text is.
pub open spec fn parsed(chars: Seq<char>) -> Result<SExprV, SExprError> {
    match expression_at(chars, 0) {
        Err(error) => Err(error),
        Ok((expression, end)) => {
            let rest = space_end(chars, end);
            if rest < chars.len() {
                Err(SExprError::TrailingInput(offset_at(chars, rest) as usize))
            } else {
                Ok(expression)
            }
        },
    }
}

/// The text of an expression.
pub open spec fn rendered(expression: SExprV) -> Seq<char>
    decreases expression, 0int, 0int,
{
    match expression {
        SExprV::Atom(name) => name,
        SExprV::List(items) => seq!['('] + items_rendered(items, 0) + seq![')'],
    }
}

/// The text of the items from `from` on, each behind a blank but the first.
pub open spec fn items_rendered(items: Seq<SExprV>, from: int) -> Seq<char>
    decreases items, 1int, items.len() - from,
{
    if !(0 <= from < items.len()) {
        Seq::empty()
    } else if from == 0 {
        rendered(items[from]) + items_rendered(items, from + 1)
    } else {
        seq![' '] + rendered(items[from]) + items_rendered(items, from + 1)
    }
}

// ---------------------------------------------------------------------------------------------
// Parsing
// ---------------------------------------------------------------------------------------------
/// A text, and a position in it: the number of characters and of bytes before it.
struct SExprParser<'a> {
    source: &'a str,
    chars: &'a Vec<char>,
    position: usize,
    offset: usize,
}

impl<'a> SExprParser<'a> {
    spec fn well_formed(self) -> bool {
        &&& self.chars@ == self.source@
        &&& self.position <= self.chars@.len()
        &&& self.offset == offset_at(self.chars@, self.position as int)
        &&& offset_at(self.chars@, self.chars@.len() as int) <= usize::MAX
    }

    fn bump(&mut self)
        requires
            old(self).well_formed(),
            old(self).position < old(self).chars@.len(),
        ensures
            final(self).well_formed(),
            final(self).chars == old(self).chars,
            final(self).position == old(self).position + 1,
    {
        proof {
            lemma_offset_monotonic(
                self.chars@,
                self.position + 1,
                self.chars@.len() as int,
            );
        }
        assert(self.position < self.chars.len());
        self.offset = self.offset + char_width(self.chars[self.position]);
        self.position = self.position + 1;
    }

    fn skip_whitespace(&mut self)
        requires
            old(self).well_formed(),
        ensures
            final(self).well_formed(),
            final(self).chars == old(self).chars,
            final(self).position == space_end(old(self).chars@, old(self).position as int),
    {
        while self.position < self.chars.len() && is_space_char(self.chars[self.position])
            invariant
                self.well_formed(),
                self.chars == old(self).chars,
                space_end(self.chars@, old(self).position as int) == space_end(
                    self.chars@,
                    self.position as int,
                ),
            decreases self.chars.len() - self.position,
        {
            self.bump();
        }
    }

    fn atom(&mut self) -> (result: Result<SExpr, SExprError>)
        requires
            old(self).well_formed(),
        ensures
            final(self).well_formed(),
            final(self).chars == old(self).chars,
            final(self).position == atom_end(old(self).chars@, old(self).position as int),
            ({
                let start = old(self).position as int;
                let end = atom_end(old(self).chars@, start);
                match result {
                    Ok(atom) => end != start && atom@ == SExprV::Atom(
                        old(self).chars@.subrange(start, end),
                    ),
                    Err(error) => end == start && error == SExprError::EmptyAtom(old(self).offset),
                }
            }),
    {
        let start: usize = self.position;
        let offset: usize = self.offset;
        while self.position < self.chars.len() && !is_space_char(self.chars[self.position])
            && self.chars[self.position] != '(' && self.chars[self.position] != ')'
            && self.chars[self.position] != ';'
            invariant
                self.well_formed(),
                self.chars == old(self).chars,
                start == old(self).position,
                start <= self.position,
                atom_end(self.chars@, start as int) == atom_end(
                    self.chars@,
                    self.position as int,
                ),
            decreases self.chars.len() - self.position,
        {
            self.bump();
        }
        if self.position == start {
            return Err(SExprError::EmptyAtom(offset));
        }
        broadcast use lemma_sexpr_view;

        Ok(SExpr::Atom(self.source.substring_char(start, self.position).to_owned()))
    }

    fn expression(&mut self) -> (result: Result<SExpr, SExprError>)
        requires
            old(self).well_formed(),
        ensures
            final(self).well_formed(),
            final(self).chars == old(self).chars,
            match expression_at(old(self).chars@, old(self).position as int) {
                Ok((expression, end)) => result is Ok && result->Ok_0@ == expression
                    && final(self).position == end && end > old(self).position,
                Err(error) => result is Err && result->Err_0 == error,
            },
        decreases old(self).chars@.len() - old(self).position, 0int,
    {
        proof {
            lemma_ends(self.chars@, self.position as int);
        }
        let ghost from = self.position as int;
        let ghost start = space_end(self.chars@, from);
        self.skip_whitespace();
        if self.position >= self.chars.len() {
            return Err(SExprError::UnexpectedEnd);
        }
        proof {
            lemma_ends(self.chars@, self.position as int);
        }
        let c: char = self.chars[self.position];
        if c == '(' {
            self.list()
        } else if c == ')' {
            Err(SExprError::UnexpectedClose(self.offset))
        } else {
            self.atom()
        }
    }

    fn list(&mut self) -> (result: Result<SExpr, SExprError>)
        requires
            old(self).well_formed(),
            old(self).position < old(self).chars@.len(),
        ensures
            final(self).well_formed(),
            final(self).chars == old(self).chars,
            match items_at(
                old(self).chars@,
                old(self).position + 1,
                old(self).offset,
                Seq::empty(),
            ) {
                Ok((expression, end)) => result is Ok && result->Ok_0@ == expression
                    && final(self).position == end && end > old(self).position,
                Err(error) => result is Err && result->Err_0 == error,
            },
        decreases old(self).chars@.len() - old(self).position - 1, 1int,
    {
        let offset: usize = self.offset;
        let ghost chars = self.chars@;
        let ghost before = self.position as int;
        self.bump();
        let ghost from = self.position as int;
        let mut items: Vec<SExpr> = Vec::new();
        loop
            invariant
                self.well_formed(),
                self.chars == old(self).chars,
                self.chars@ == chars,
                offset == old(self).offset,
                from == old(self).position + 1,
                before == old(self).position,
                from <= self.position,
                items_at(chars, from, offset, Seq::empty()) == items_at(
                    chars,
                    self.position as int,
                    offset,
                    deep(items@),
                ),
            decreases self.chars@.len() - self.position,
        {
            proof {
                lemma_ends(chars, self.position as int);
            }
            let ghost here = self.position as int;
            self.skip_whitespace();
            if self.position >= self.chars.len() {
                return Err(SExprError::UnterminatedList(offset));
            }
            if self.chars[self.position] == ')' {
                self.bump();
                broadcast use lemma_sexpr_view;

                return Ok(SExpr::List(items));
            }
            proof {
                lemma_ends(chars, self.position as int);
            }
            match self.expression() {
                Ok(item) => {
                    items.push(item);
                },
                Err(error) => {
                    return Err(error);
                },
            }
        }
    }
}

fn chars_of(source: &str) -> (chars: Vec<char>)
    ensures
        chars@ == source@,
{
    let length: usize = source.unicode_len();
    let mut chars: Vec<char> = Vec::new();
    let mut i: usize = 0;
    while i < length
        invariant
            i <= length,
            length == source@.len(),
            chars@ == source@.subrange(0, i as int),
        decreases length - i,
    {
        chars.push(source.get_char(i));
        assert(chars@ =~= source@.subrange(0, i as int + 1));
        i += 1;
    }
    assert(chars@ =~= source@);
    chars
}

fn append_rendered(expression: &SExpr, text: &mut String)
    ensures
        final(text)@ == old(text)@ + rendered(expression@),
    decreases expression,
{
    broadcast use lemma_sexpr_view;

    match expression {
        SExpr::Atom(name) => {
            text.append(name.as_str());
        },
        SExpr::List(items) => {
            proof {
                reveal_strlit("(");
                reveal_strlit(")");
                assert("("@ =~= seq!['(']);
                assert(")"@ =~= seq![')']);
            }
            let ghost before = text@;
            text.append("(");
            append_items(items, text);
            text.append(")");
            assert(text@ =~= before + rendered(expression@));
        },
    }
}

fn append_items(items: &Vec<SExpr>, text: &mut String)
    ensures
        final(text)@ == old(text)@ + items_rendered(deep(items@), 0),
    decreases items,
{
    let ghost before = text@;
    let mut i: usize = 0;
    while i < items.len()
        invariant
            i <= items.len(),
            before + items_rendered(deep(items@), 0) == text@ + items_rendered(
                deep(items@),
                i as int,
            ),
        decreases items.len() - i,
    {
        assert(deep(items@)[i as int] == items[i as int]@);
        let ghost here = text@;
        let ghost rest = items_rendered(deep(items@), i as int + 1);
        proof {
            reveal_strlit(" ");
            assert(" "@ =~= seq![' ']);
        }
        if i > 0 {
            text.append(" ");
        }
        append_rendered(&items[i], text);
        assert(here + items_rendered(deep(items@), i as int) =~= text@ + rest);
        i += 1;
    }
    assert(text@ + Seq::<char>::empty() =~= text@);
}

impl SExpr {
    /// The atom `value`.
    pub fn atom(value: &str) -> (expression: Self)
        ensures
            expression@ == SExprV::Atom(value@),
    {
        broadcast use lemma_sexpr_view;

        SExpr::Atom(value.to_owned())
    }

    /// The list of `items`.
    pub fn list(items: Vec<SExpr>) -> (expression: Self)
        ensures
            expression@ == SExprV::List(deep(items@)),
    {
        broadcast use lemma_sexpr_view;

        SExpr::List(items)
    }

    /// Read an expression. The whole text has to be one.
    pub fn parse(source: &str) -> (result: Result<Self, SExprError>)
        ensures
            match parsed(source@) {
                Ok(expression) => result is Ok && result->Ok_0@ == expression,
                Err(error) => result is Err && result->Err_0 == error,
            },
    {
        let chars = chars_of(source);
        let bytes: usize = source.as_bytes().len();
        proof {
            lemma_offset_is_length(chars@);
            assert(offset_at(chars@, chars@.len() as int) == bytes);
        }
        let mut parser = SExprParser { source, chars: &chars, position: 0, offset: 0 };
        let expression = match parser.expression() {
            Ok(expression) => expression,
            Err(error) => {
                return Err(error);
            },
        };
        parser.skip_whitespace();
        if parser.position < chars.len() {
            return Err(SExprError::TrailingInput(parser.offset));
        }
        Ok(expression)
    }

    /// The text of this expression.
    pub fn to_string(&self) -> (text: String)
        ensures
            text@ == rendered(self@),
    {
        let mut text = String::new();
        append_rendered(self, &mut text);
        assert(Seq::<char>::empty() + rendered(self@) =~= rendered(self@));
        text
    }
}

// ---------------------------------------------------------------------------------------------
// Laws
// ---------------------------------------------------------------------------------------------
/// Whether the atoms of an expression can be read back: none is empty, and none holds a character
/// that ends an atom.
pub open spec fn printable(expression: SExprV) -> bool
    decreases expression, 0int, 0int,
{
    match expression {
        SExprV::Atom(name) => name.len() > 0 && forall|i: int|
            0 <= i < name.len() ==> is_atom_char(#[trigger] name[i]),
        SExprV::List(items) => printable_items(items, 0),
    }
}

/// Whether the atoms of the items from `from` on can be read back.
pub open spec fn printable_items(items: Seq<SExprV>, from: int) -> bool
    decreases items, 1int, items.len() - from,
{
    0 <= from < items.len() ==> printable(items[from]) && printable_items(items, from + 1)
}

proof fn lemma_rendered_start(expression: SExprV)
    requires
        printable(expression),
    ensures
        rendered(expression).len() > 0,
        !is_space(rendered(expression)[0]),
        rendered(expression)[0] != ')',
{
}

proof fn lemma_atom_end(text: Seq<char>, from: int, end: int)
    requires
        0 <= from <= end <= text.len(),
        forall|i: int| from <= i < end ==> is_atom_char(#[trigger] text[i]),
        end == text.len() || !is_atom_char(text[end]),
    ensures
        atom_end(text, from) == end,
    decreases end - from,
{
    if from < end {
        lemma_atom_end(text, from + 1, end);
    }
}

/// An expression is read where its text stands, if no character that could belong to it follows.
proof fn lemma_expression_rendered(
    expression: SExprV,
    before: Seq<char>,
    after: Seq<char>,
    text: Seq<char>,
)
    requires
        printable(expression),
        after.len() == 0 || !is_atom_char(after[0]),
        text == before + rendered(expression) + after,
    ensures
        expression_at(text, before.len() as int) == Ok::<(SExprV, int), SExprError>(
            (expression, (before.len() + rendered(expression).len()) as int),
        ),
    decreases expression, 0int, 0int,
{
    let start = before.len() as int;
    let body = rendered(expression);
    lemma_rendered_start(expression);
    assert(text[start] == body[0]);
    assert(space_end(text, start) == start);
    match expression {
        SExprV::Atom(name) => {
            let end = start + name.len();
            assert forall|i: int| start <= i < end implies is_atom_char(#[trigger] text[i]) by {
                assert(text[i] == name[i - start]);
            }
            if after.len() > 0 {
                assert(text[end] == after[0]);
            }
            lemma_atom_end(text, start, end);
            assert(text.subrange(start, end) =~= name);
        },
        SExprV::List(items) => {
            assert(text =~= (before + seq!['(']) + items_rendered(items, 0) + seq![')'] + after);
            let offset = offset_at(text, start) as usize;
            assert(items.subrange(0, 0) =~= Seq::<SExprV>::empty());
            lemma_items_rendered(
                items,
                0,
                before + seq!['('],
                after,
                text,
                offset,
                Seq::empty(),
            );
            assert(body.len() == items_rendered(items, 0).len() + 2);
        },
    }
}

proof fn lemma_items_rendered(
    items: Seq<SExprV>,
    from: int,
    before: Seq<char>,
    after: Seq<char>,
    text: Seq<char>,
    offset: usize,
    found: Seq<SExprV>,
)
    requires
        0 <= from <= items.len(),
        printable_items(items, from),
        text == before + items_rendered(items, from) + seq![')'] + after,
        found == items.subrange(0, from),
    ensures
        items_at(text, before.len() as int, offset, found) == Ok::<(SExprV, int), SExprError>(
            (SExprV::List(items), (before.len() + items_rendered(items, from).len() + 1) as int),
        ),
    decreases items, 1int, items.len() - from,
{
    let start = before.len() as int;
    if from == items.len() {
        assert(items_rendered(items, from).len() == 0);
        assert(text[start] == ')');
        assert(space_end(text, start) == start);
        assert(found =~= items);
    } else {
        let item = rendered(items[from]);
        let rest = items_rendered(items, from + 1);
        let gap = if from == 0 {
            Seq::<char>::empty()
        } else {
            seq![' ']
        };
        let left = before + gap;
        let right = rest + seq![')'] + after;
        lemma_rendered_start(items[from]);
        assert(items_rendered(items, from) =~= gap + item + rest);
        assert(text =~= left + item + right);
        let here = left.len() as int;
        assert(text[here] == item[0]);
        if from > 0 {
            assert(text[start] == ' ');
            assert(is_space(' '));
            assert(space_end(text, start) == space_end(text, start + 1));
        }
        assert(space_end(text, here) == here);
        assert(space_end(text, start) == here);
        lemma_rest_start(items, from + 1, after);
        lemma_expression_rendered(items[from], left, right, text);
        let end = here + item.len();
        assert(found.push(items[from]) =~= items.subrange(0, from + 1));
        assert(text =~= (left + item) + rest + seq![')'] + after);
        lemma_items_rendered(
            items,
            from + 1,
            left + item,
            after,
            text,
            offset,
            found.push(items[from]),
        );
        assert((left + item).len() == end);
        assert(expression_at(text, here) == Ok::<(SExprV, int), SExprError>((items[from], end)));
    }
}

proof fn lemma_rest_start(items: Seq<SExprV>, from: int, after: Seq<char>)
    requires
        1 <= from <= items.len(),
    ensures
        (items_rendered(items, from) + seq![')'] + after).len() > 0,
        !is_atom_char((items_rendered(items, from) + seq![')'] + after)[0]),
{
    let right = items_rendered(items, from) + seq![')'] + after;
    if from == items.len() {
        assert(right[0] == ')');
    } else {
        assert(right[0] == ' ');
        assert(is_space(' '));
    }
}

/// To read the text of an expression gives the expression back.
pub proof fn law_parse_rendered(expression: SExprV)
    requires
        printable(expression),
    ensures
        parsed(rendered(expression)) == Ok::<SExprV, SExprError>(expression),
{
    let text = rendered(expression);
    let none = Seq::<char>::empty();
    assert(text =~= none + text + none);
    lemma_expression_rendered(expression, none, none, text);
}

proof fn lemma_atom_chars(chars: Seq<char>, from: int)
    requires
        0 <= from <= chars.len(),
    ensures
        from <= atom_end(chars, from) <= chars.len(),
        forall|i: int| from <= i < atom_end(chars, from) ==> is_atom_char(#[trigger] chars[i]),
    decreases chars.len() - from,
{
    lemma_ends(chars, from);
    if from < chars.len() && is_atom_char(chars[from]) {
        lemma_atom_chars(chars, from + 1);
    }
}

proof fn lemma_printable_pushed(items: Seq<SExprV>, item: SExprV, from: int)
    requires
        0 <= from <= items.len(),
        printable_items(items, from),
        printable(item),
    ensures
        printable_items(items.push(item), from),
    decreases items.len() - from,
{
    let more = items.push(item);
    if from < items.len() {
        assert(more[from] == items[from]);
        lemma_printable_pushed(items, item, from + 1);
    } else {
        assert(more[from] == item);
        assert(printable_items(more, from + 1));
    }
}

proof fn lemma_expression_printable(chars: Seq<char>, from: int)
    ensures
        match expression_at(chars, from) {
            Ok((expression, _)) => printable(expression),
            Err(_) => true,
        },
    decreases chars.len() - from, 0int,
{
    let start = space_end(chars, from);
    if 0 <= from <= start < chars.len() {
        if chars[start] == '(' {
            assert(printable_items(Seq::<SExprV>::empty(), 0));
            lemma_items_printable(
                chars,
                start + 1,
                offset_at(chars, start) as usize,
                Seq::empty(),
            );
        } else {
            lemma_atom_chars(chars, start);
            let name = chars.subrange(start, atom_end(chars, start));
            assert forall|i: int| 0 <= i < name.len() implies is_atom_char(#[trigger] name[i]) by {
                assert(name[i] == chars[start + i]);
            }
        }
    }
}

proof fn lemma_items_printable(chars: Seq<char>, from: int, offset: usize, items: Seq<SExprV>)
    requires
        printable_items(items, 0),
    ensures
        match items_at(chars, from, offset, items) {
            Ok((expression, _)) => printable(expression),
            Err(_) => true,
        },
    decreases chars.len() - from, 1int,
{
    let start = space_end(chars, from);
    if 0 <= from <= start < chars.len() && chars[start] != ')' {
        lemma_expression_printable(chars, start);
        if let Ok((item, end)) = expression_at(chars, start) {
            if start < end <= chars.len() {
                lemma_printable_pushed(items, item, 0);
                lemma_items_printable(chars, end, offset, items.push(item));
            }
        }
    }
}

/// Every text that is an expression is read back: the expression that it is, printed and parsed
/// again, is the same expression.
pub proof fn law_parsed_again(text: Seq<char>)
    ensures
        match parsed(text) {
            Ok(expression) => parsed(rendered(expression)) == parsed(text),
            Err(_) => true,
        },
{
    lemma_expression_printable(text, 0);
    if let Ok(expression) = parsed(text) {
        law_parse_rendered(expression);
    }
}

} // verus!
