//! Straight quotes made curly, outside code blocks.

use vstd::prelude::*;
use crate::text::{chars_of, string_of};
use crate::token::{Token, TokenView};

verus! {

/// Whether `c` is white space: a char with the Unicode property
/// `White_Space`.
pub open spec fn white_space(c: char) -> bool {
    let n = c as u32;
    ||| 0x0009 <= n <= 0x000D
    ||| n == 0x0020
    ||| n == 0x0085
    ||| n == 0x00A0
    ||| n == 0x1680
    ||| 0x2000 <= n <= 0x200A
    ||| n == 0x2028
    ||| n == 0x2029
    ||| n == 0x202F
    ||| n == 0x205F
    ||| n == 0x3000
}

/// Executable form of [`white_space`].
pub fn is_white_space(c: char) -> (r: bool)
    ensures
        r == white_space(c),
{
    let n = c as u32;
    (0x0009 <= n && n <= 0x000D) || n == 0x0020 || n == 0x0085 || n == 0x00A0 || n == 0x1680 || (
    0x2000 <= n && n <= 0x200A) || n == 0x2028 || n == 0x2029 || n == 0x202F || n == 0x205F || n
        == 0x3000
}

/// The char that stands for `c` when the char before it was white space
/// (`after_space`) or was not: a straight quote becomes the opening form
/// after white space and the closing form elsewhere; any other char stays.
pub open spec fn curly(c: char, after_space: bool) -> char {
    if c == '\'' {
        if after_space {
            '\u{2018}'
        } else {
            '\u{2019}'
        }
    } else if c == '"' {
        if after_space {
            '\u{201C}'
        } else {
            '\u{201D}'
        }
    } else {
        c
    }
}

/// Whether the char at `i` counts as preceded by white space: the start of
/// the text does.
pub open spec fn preceded_by_space(s: Seq<char>, i: int) -> bool {
    i == 0 || white_space(s[i - 1])
}

/// The text with every straight quote made curly by what precedes it.
pub open spec fn curly_text(s: Seq<char>) -> Seq<char> {
    Seq::new(s.len(), |i: int| curly(s[i], preceded_by_space(s, i)))
}

/// Makes the straight quotes of text tokens curly, except inside code
/// blocks.
#[derive(Debug, Clone, Copy, PartialEq, Eq, Structural)]
pub struct QuoteConverterFilter {
    /// Whether the filter does anything at all.
    pub enabled: bool,
    /// Whether text is converted at this point: not inside a code block.
    pub convert_text: bool,
}

impl QuoteConverterFilter {
    /// A filter at the start of a chapter, outside any code block.
    pub fn new(enabled: bool) -> (r: Self)
        ensures
            r.enabled == enabled,
            r.convert_text,
    {
        QuoteConverterFilter { enabled, convert_text: true }
    }

    /// The state after `token`: a code block's start switches conversion
    /// off and its end switches it on again; a disabled filter never
    /// changes.
    pub open spec fn after(self, token: TokenView) -> Self {
        if !self.enabled {
            self
        } else {
            match token {
                TokenView::StartCodeBlock(_) => QuoteConverterFilter {
                    enabled: true,
                    convert_text: false,
                },
                TokenView::EndCodeBlock => QuoteConverterFilter {
                    enabled: true,
                    convert_text: true,
                },
                _ => self,
            }
        }
    }

    /// What `token` becomes: text is converted while the filter is enabled
    /// and outside a code block; every other token, and all text otherwise,
    /// stays as it is.
    pub open spec fn converted(self, token: TokenView) -> TokenView {
        match token {
            TokenView::Text(s) => if self.enabled && self.convert_text {
                TokenView::Text(curly_text(s))
            } else {
                token
            },
            _ => token,
        }
    }

    /// Filters one token: text is converted while the filter is enabled and
    /// outside a code block; every other token, and all text otherwise, is
    /// handed on as it is.
    pub fn apply(&mut self, token: Token) -> (r: Token)
        ensures
            *final(self) == old(self).after(token@),
            r@ == old(self).converted(token@),
    {
        if !self.enabled {
            return token;
        }
        match token {
            Token::StartCodeBlock(e) => {
                self.convert_text = false;
                Token::StartCodeBlock(e)
            },
            Token::EndCodeBlock => {
                self.convert_text = true;
                Token::EndCodeBlock
            },
            Token::Text(text) => {
                if self.convert_text {
                    Token::Text(Self::convert_quotes_to_curly(text.as_str()))
                } else {
                    Token::Text(text)
                }
            },
            other => other,
        }
    }

    /// The text with its straight quotes made curly: the opening form after
    /// white space and at the start of the text, the closing form elsewhere.
    pub fn convert_quotes_to_curly(original_text: &str) -> (r: String)
        ensures
            r@ == curly_text(original_text@),
    {
        let t = chars_of(original_text);
        let mut out: Vec<char> = Vec::new();
        let mut preceded_by_whitespace = true;
        let mut i: usize = 0;
        while i < t.len()
            invariant
                i <= t.len(),
                t@ == original_text@,
                preceded_by_whitespace == preceded_by_space(t@, i as int),
                out@ == curly_text(t@).take(i as int),
            decreases t.len() - i,
        {
            let c = t[i];
            let converted = if c == '\'' {
                if preceded_by_whitespace {
                    '\u{2018}'
                } else {
                    '\u{2019}'
                }
            } else if c == '"' {
                if preceded_by_whitespace {
                    '\u{201C}'
                } else {
                    '\u{201D}'
                }
            } else {
                c
            };
            out.push(converted);
            assert(out@ =~= curly_text(t@).take(i + 1));
            preceded_by_whitespace = is_white_space(c);
            i = i + 1;
        }
        assert(curly_text(t@).take(t.len() as int) =~= curly_text(t@));
        string_of(&out)
    }
}

} // verus!
