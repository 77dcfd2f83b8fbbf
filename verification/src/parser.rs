//! Parser for inline style declarations.
//!
//! The parser reads the tokenized declaration text through a
//! [`ParserTokenBuffer`]: a top-level loop picks up identifiers, each
//! starts a declaration, and a per-property sub-parser reads the value.
//! An unsupported property or a malformed value drops that declaration
//! and recovers; parsing itself never fails.
//!
//! The whole pass is specified by [`spec_parse_inline`] over the input
//! bytes, built from the tokenizer's model.

use vstd::prelude::*;
use crate::color::{Color, hex_color_or_black, spec_hex_color_or_black, spec_code_to_color};
use crate::fixed::{parse_px, spec_parse_px};
use crate::primitive_value::{
    PrimitiveValue,
    PrimitiveValueModel,
    spec_value_color,
    spec_value_dimension,
    spec_value_identifier,
};
use crate::property::{PropertyDeclaration, PropertyDeclarationModel};
use crate::token_buffer::{ParserTokenBuffer, spec_skip_until, lemma_skip_until_bounds};
use crate::tokenizer::{tokenize, spec_tokenize, Token, TokenKind, TokenModel};

verus! {

use vstd::string::StringSliceAdditionalSpecFns;
use vstd::string::StringExecFns;

broadcast use crate::token_buffer::lemma_position_nonneg;

/// The property names whose value is a dimension.
pub open spec fn spec_dimension_property(name: Seq<char>) -> bool {
    name == "width"@ || name == "height"@ || name == "min-width"@ || name == "max-width"@
        || name == "min-height"@ || name == "max-height"@ || name == "left"@ || name == "top"@
}

/// The value a dimension sub-parse yields at `pos`, and the position
/// after it: the next token must be a `Dimension` whose text reads as
/// a number; anything else yields no value.
pub open spec fn spec_sub_dimension(toks: Seq<TokenModel>, pos: int) -> (Option<
    PrimitiveValueModel,
>, int) {
    if 0 <= pos < toks.len() {
        let t = toks[pos];
        if t.kind == TokenKind::Dimension && spec_parse_px(t.value) is Some {
            (
                Some(spec_value_dimension(t.value, spec_parse_px(t.value)->Some_0, t.unit)),
                pos + 1,
            )
        } else {
            (None, pos + 1)
        }
    } else {
        (None, pos)
    }
}

/// The value a display sub-parse yields at `pos`: the next token must
/// be an `Identifier`.
pub open spec fn spec_sub_display(toks: Seq<TokenModel>, pos: int) -> (Option<
    PrimitiveValueModel,
>, int) {
    if 0 <= pos < toks.len() {
        let t = toks[pos];
        if t.kind == TokenKind::Identifier {
            (Some(spec_value_identifier(t.value)), pos + 1)
        } else {
            (None, pos + 1)
        }
    } else {
        (None, pos)
    }
}

/// The value a color sub-parse yields at `pos`: a `Hash` token reads
/// as a hex literal (a malformed one resolving to opaque black), an
/// `Identifier` as a color code; anything else yields no value.
pub open spec fn spec_sub_color(toks: Seq<TokenModel>, pos: int) -> (Option<
    PrimitiveValueModel,
>, int) {
    if 0 <= pos < toks.len() {
        let t = toks[pos];
        if t.kind == TokenKind::Hash {
            (Some(spec_value_color(t.value, spec_hex_color_or_black(t.value))), pos + 1)
        } else if t.kind == TokenKind::Identifier {
            (Some(spec_value_color(t.value, spec_code_to_color(t.value))), pos + 1)
        } else {
            (None, pos + 1)
        }
    } else {
        (None, pos)
    }
}

/// The result of parsing one declaration whose property name was just
/// consumed: the colon position is passed over, the value sub-parser
/// chosen by the name runs, and an unsupported name skips past the
/// next semicolon and yields no declaration.
pub open spec fn spec_parse_declaration(toks: Seq<TokenModel>, pos: int, name: Seq<char>) -> (
    Option<PropertyDeclarationModel>,
    int,
) {
    let pos2 = if 0 <= pos < toks.len() {
        pos + 1
    } else {
        pos
    };
    if spec_dimension_property(name) {
        let (v, p) = spec_sub_dimension(toks, pos2);
        (spec_decl_of(name, v), p)
    } else if name == "display"@ {
        let (v, p) = spec_sub_display(toks, pos2);
        (spec_decl_of(name, v), p)
    } else if name == "color"@ || name == "background-color"@ {
        let (v, p) = spec_sub_color(toks, pos2);
        (spec_decl_of(name, v), p)
    } else {
        let p = spec_skip_until(toks, pos2, TokenKind::Semicolon);
        let p2 = if p < toks.len() {
            p + 1
        } else {
            p
        };
        (None, p2)
    }
}

/// A declaration from a sub-parse outcome: no value, no declaration.
pub open spec fn spec_decl_of(name: Seq<char>, v: Option<PrimitiveValueModel>) -> Option<
    PropertyDeclarationModel,
> {
    match v {
        Some(vm) => Some(PropertyDeclarationModel { name: name, value: vm }),
        None => None,
    }
}

/// The declarations parsed from `toks` starting at `pos`: identifiers
/// start declarations, `EndOfInput` stops the pass, and any other
/// token kind at the top level is passed over.
pub open spec fn spec_parse_decls(toks: Seq<TokenModel>, pos: int) -> Seq<
    PropertyDeclarationModel,
>
    decreases toks.len() - pos,
        via spec_parse_decls_decreases
{
    if !(0 <= pos < toks.len()) {
        Seq::<PropertyDeclarationModel>::empty()
    } else {
        let t = toks[pos];
        if t.kind == TokenKind::EndOfInput {
            Seq::<PropertyDeclarationModel>::empty()
        } else if t.kind == TokenKind::Identifier {
            let (d, p) = spec_parse_declaration(toks, pos + 1, t.value);
            (match d {
                Some(dm) => seq![dm],
                None => Seq::<PropertyDeclarationModel>::empty(),
            }) + spec_parse_decls(toks, p)
        } else {
            spec_parse_decls(toks, pos + 1)
        }
    }
}

#[via_fn]
proof fn spec_parse_decls_decreases(toks: Seq<TokenModel>, pos: int) {
    if 0 <= pos < toks.len() {
        let t = toks[pos];
        if t.kind != TokenKind::EndOfInput && t.kind == TokenKind::Identifier {
            lemma_parse_declaration_bounds(toks, pos + 1, t.value);
        }
    }
}

/// The position after a declaration parse stays between the start
/// position and the end of the stream.
pub proof fn lemma_parse_declaration_bounds(toks: Seq<TokenModel>, pos: int, name: Seq<char>)
    requires
        0 <= pos <= toks.len(),
    ensures
        pos <= spec_parse_declaration(toks, pos, name).1 <= toks.len(),
{
    let pos2 = if 0 <= pos < toks.len() {
        pos + 1
    } else {
        pos
    };
    lemma_skip_until_bounds(toks, pos2, TokenKind::Semicolon);
}

/// The declarations parsed from the tokens of the input bytes `b`.
pub open spec fn spec_parse_inline(b: Seq<u8>) -> Seq<PropertyDeclarationModel> {
    spec_parse_decls(spec_tokenize(b), 0)
}

/// The inline-declaration parser over one input string.
pub struct Parser {
    input: String,
    buffer: ParserTokenBuffer,
}

impl Parser {
    /// The input text being parsed.
    pub closed spec fn input_view(&self) -> Seq<char> {
        self.input@
    }

    /// The parser's cursor is well formed.
    pub closed spec fn wf(&self) -> bool {
        self.buffer.wf()
    }

    /// A parser over the given declaration text.
    pub fn new(input: String) -> (p: Parser)
        ensures
            p.wf(),
            p.input_view() == input@,
    {
        Parser { input: input, buffer: ParserTokenBuffer::default() }
    }

    /// Parses the input into its declarations; see
    /// [`spec_parse_inline`] over the input's bytes.
    pub fn parse_inline(&mut self) -> (result: Vec<PropertyDeclaration>)
        requires
            old(self).wf(),
        ensures
            final(self).wf(),
            final(self).input_view() == old(self).input_view(),
            result@.map_values(|d: PropertyDeclaration| d@) == spec_parse_inline(
                vstd::utf8::encode_utf8(old(self).input_view()),
            ),
    {
        let mut result = Vec::<PropertyDeclaration>::new();
        let tokens = tokenize(self.input.as_str());
        self.buffer = ParserTokenBuffer::new(tokens);
        let ghost toks = self.buffer.toks();
        assert(toks == spec_tokenize(vstd::utf8::encode_utf8(self.input@)));
        assert(result@.map_values(|d: PropertyDeclaration| d@) + spec_parse_decls(toks, 0)
            =~= spec_parse_decls(toks, 0));
        while !self.buffer.is_out_of_bounds()
            invariant_except_break
                result@.map_values(|d: PropertyDeclaration| d@) + spec_parse_decls(
                    toks,
                    self.buffer.position(),
                ) =~= spec_parse_decls(toks, 0),
            invariant
                self.buffer.wf(),
                self.input@ == old(self).input@,
                self.buffer.toks() == toks,
                0 <= self.buffer.position() <= toks.len(),
            ensures
                self.buffer.wf(),
                self.input@ == old(self).input@,
                result@.map_values(|d: PropertyDeclaration| d@) =~= spec_parse_decls(toks, 0),
            decreases toks.len() - self.buffer.position(),
        {
            let ghost pos_here = self.buffer.position();
            let token = self.buffer.next();
            let kind = token.kind;
            if kind == TokenKind::EndOfInput {
                proof {
                    assert(spec_parse_decls(toks, pos_here)
                        =~= Seq::<PropertyDeclarationModel>::empty());
                    assert(result@.map_values(|d: PropertyDeclaration| d@) =~= spec_parse_decls(
                        toks,
                        0,
                    ));
                }
                break ;
            }
            if kind == TokenKind::Identifier {
                let ghost name = toks[pos_here].value;
                proof {
                    lemma_parse_declaration_bounds(toks, pos_here + 1, name);
                }
                let ghost results_old = result@;
                if let Some(declaration) = self.parse_declaration() {
                    result.push(declaration);
                }
                proof {
                    assert(result@.map_values(|d: PropertyDeclaration| d@) + spec_parse_decls(
                        toks,
                        self.buffer.position(),
                    ) =~= spec_parse_decls(toks, 0)) by {
                        let (dm, p) = spec_parse_declaration(toks, pos_here + 1, name);
                        match dm {
                            Some(m) => {
                                assert(result@ =~= results_old + seq![result@.last()]);
                                assert(result@.map_values(|d: PropertyDeclaration| d@)
                                    =~= results_old.map_values(|d: PropertyDeclaration| d@)
                                    + seq![m]);
                            },
                            None => {},
                        }
                        assert(spec_parse_decls(toks, pos_here) =~= (match dm {
                            Some(m) => seq![m],
                            None => Seq::<PropertyDeclarationModel>::empty(),
                        }) + spec_parse_decls(toks, p));
                    }
                }
            }
        }
        result
    }

    /// Parses one declaration after its property name was consumed:
    /// see [`spec_parse_declaration`]. An unsupported property or a
    /// malformed value drops the declaration (the pass goes on).
    fn parse_declaration(&mut self) -> (r: Option<PropertyDeclaration>)
        requires
            old(self).wf(),
            1 <= old(self).buffer.position() <= old(self).buffer.toks().len(),
        ensures
            final(self).wf(),
            final(self).input_view() == old(self).input_view(),
            final(self).buffer.toks() == old(self).buffer.toks(),
            ({
                let (dm, p) = spec_parse_declaration(
                    old(self).buffer.toks(),
                    old(self).buffer.position(),
                    old(self).buffer.toks()[old(self).buffer.position() - 1].value,
                );
                &&& final(self).buffer.position() == p
                &&& (r is Some) == (dm is Some)
                &&& (r matches Some(d) ==> dm matches Some(m) && d@ == m)
            }),
    {
        let property_name = self.buffer.current().value.clone();
        self.buffer.expect(TokenKind::Colon);
        let mut value: Option<PrimitiveValue> = None;
        let mut supported = true;

        if property_name == String::from_str("width") || property_name == String::from_str(
            "height",
        ) || property_name == String::from_str("min-width") || property_name == String::from_str(
            "max-width",
        ) || property_name == String::from_str("min-height") || property_name
            == String::from_str("max-height") || property_name == String::from_str("left")
            || property_name == String::from_str("top") {
            value = self.parse_generic_dimension_value();
        } else if property_name == String::from_str("display") {
            value = self.parse_display_value();
        } else if property_name == String::from_str("color") || property_name
            == String::from_str("background-color") {
            value = self.parse_color_value();
        } else {
            // unsupported property: skip the rest of the declaration
            supported = false;
            self.buffer.skip_until(TokenKind::Semicolon);
            self.buffer.expect(TokenKind::Semicolon);
        }
        if !supported {
            return None;
        }
        match value {
            Some(v) => {
                let mut declaration = PropertyDeclaration::new(property_name);
                declaration.value = v;
                Some(declaration)
            },
            None => None,
        }
    }

    /// Reads a dimension value; see [`spec_sub_dimension`].
    fn parse_generic_dimension_value(&mut self) -> (v: Option<PrimitiveValue>)
        requires
            old(self).wf(),
        ensures
            final(self).wf(),
            final(self).input_view() == old(self).input_view(),
            final(self).buffer.toks() == old(self).buffer.toks(),
            ({
                let (vm, p) = spec_sub_dimension(
                    old(self).buffer.toks(),
                    old(self).buffer.position(),
                );
                &&& final(self).buffer.position() == p
                &&& (v is Some) == (vm is Some)
                &&& (v matches Some(pv) ==> vm matches Some(m) && pv@ == m)
            }),
    {
        if self.buffer.is_out_of_bounds() {
            return None;
        }
        let (kind, full, unit) = read_token(self.buffer.next());
        if kind == TokenKind::Dimension {
            match parse_px(full.as_str()) {
                Some(px) => Some(PrimitiveValue::from_dimension_value(&full, px, &unit)),
                None => None,
            }
        } else {
            None
        }
    }

    /// Reads a display value; see [`spec_sub_display`].
    fn parse_display_value(&mut self) -> (v: Option<PrimitiveValue>)
        requires
            old(self).wf(),
        ensures
            final(self).wf(),
            final(self).input_view() == old(self).input_view(),
            final(self).buffer.toks() == old(self).buffer.toks(),
            ({
                let (vm, p) = spec_sub_display(
                    old(self).buffer.toks(),
                    old(self).buffer.position(),
                );
                &&& final(self).buffer.position() == p
                &&& (v is Some) == (vm is Some)
                &&& (v matches Some(pv) ==> vm matches Some(m) && pv@ == m)
            }),
    {
        if self.buffer.is_out_of_bounds() {
            return None;
        }
        let ghost pos0 = self.buffer.position();
        let (kind, text, _unit) = read_token(self.buffer.next());
        assert(self.buffer.position() == pos0 + 1);
        if kind == TokenKind::Identifier {
            Some(PrimitiveValue::from_identifier(&text))
        } else {
            None
        }
    }

    /// Reads a color value; see [`spec_sub_color`].
    fn parse_color_value(&mut self) -> (v: Option<PrimitiveValue>)
        requires
            old(self).wf(),
        ensures
            final(self).wf(),
            final(self).input_view() == old(self).input_view(),
            final(self).buffer.toks() == old(self).buffer.toks(),
            ({
                let (vm, p) = spec_sub_color(old(self).buffer.toks(), old(self).buffer.position());
                &&& final(self).buffer.position() == p
                &&& (v is Some) == (vm is Some)
                &&& (v matches Some(pv) ==> vm matches Some(m) && pv@ == m)
            }),
    {
        if self.buffer.is_out_of_bounds() {
            return None;
        }
        let ghost pos0 = self.buffer.position();
        let (kind, text, _unit) = read_token(self.buffer.next());
        assert(self.buffer.position() == pos0 + 1);
        if kind == TokenKind::Hash {
            let color = hex_color_or_black(text.as_str());
            Some(PrimitiveValue::from_color(&text, color))
        } else if kind == TokenKind::Identifier {
            let color = code_to_color_owned(&text);
            Some(PrimitiveValue::from_color(&text, color))
        } else {
            None
        }
    }
}

/// The parts of a token, copied out of a borrow.
fn read_token(token: &Token) -> (r: (TokenKind, String, String))
    ensures
        r.0 == token@.kind,
        r.1@ == token@.value,
        r.2@ == token@.unit,
{
    (token.kind, token.value.clone(), token.unit.clone())
}

/// Resolves a color code held in an owned string.
fn code_to_color_owned(code: &String) -> (c: Color)
    ensures
        c == spec_code_to_color(code@),
{
    crate::color::code_to_color(code.as_str())
}

/// Parses an inline declaration string; see [`spec_parse_inline`].
pub fn parse_inline(input: &str) -> (result: Vec<PropertyDeclaration>)
    ensures
        result@.map_values(|d: PropertyDeclaration| d@) == spec_parse_inline(input.spec_bytes()),
{
    let mut parser = Parser::new(String::from_str(input));
    parser.parse_inline()
}

} // verus!
