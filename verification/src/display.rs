//! Rendering of chains and trees into human-readable text, driven by a
//! [`config::LogicFmtConfig`].

use vstd::prelude::*;

pub mod chain;
pub mod config;
pub mod node;
pub mod num;

pub use config::{LogicFmtConfig, ValueFilter};

use crate::logic::KeyValue;
use config::{filter_allows, ConfigView};
use num::{decimal_digits, u32_string};

verus! {

/// An identifier that can be written out. The text depends on the
/// identifier's view alone.
pub trait RenderKey: View + Sized {
    /// The text of an identifier.
    spec fn key_text(v: Self::V) -> Seq<char>;

    /// Writes the identifier out.
    fn render_key(&self) -> (s: String)
        ensures
            s@ == Self::key_text(self@),
    ;
}

impl RenderKey for String {
    /// A textual identifier renders as itself.
    open spec fn key_text(v: Seq<char>) -> Seq<char> {
        v
    }

    fn render_key(&self) -> (s: String) {
        self.clone()
    }
}

impl RenderKey for u32 {
    /// A numeric identifier renders in decimal.
    open spec fn key_text(v: u32) -> Seq<char> {
        decimal_digits(v as nat)
    }

    fn render_key(&self) -> (s: String) {
        u32_string(*self)
    }
}

/// The text of one term: its identifier, then — when the configuration
/// shows the value — the value in decimal between the configured prefix
/// and postfix.
pub open spec fn term_text<K: RenderKey>(t: KeyValue<K::V>, cfg: ConfigView) -> Seq<char> {
    K::key_text(t.key) + if filter_allows(cfg.show_value, t.value) {
        cfg.pre_value + decimal_digits(t.value as nat) + cfg.post_value
    } else {
        Seq::empty()
    }
}

/// Texts joined by a separator, in order.
pub open spec fn join_texts(parts: Seq<Seq<char>>, sep: Seq<char>) -> Seq<char>
    decreases parts.len(),
{
    if parts.len() == 0 {
        Seq::empty()
    } else if parts.len() == 1 {
        parts[0]
    } else {
        join_texts(parts.drop_last(), sep) + sep + parts.last()
    }
}

/// Appending a part extends the joined text by one separator and the part.
pub proof fn lemma_join_texts_push(parts: Seq<Seq<char>>, sep: Seq<char>, part: Seq<char>)
    requires
        parts.len() >= 1,
    ensures
        join_texts(parts.push(part), sep) == join_texts(parts, sep) + sep + part,
{
    assert(parts.push(part).drop_last() =~= parts);
    assert(parts.push(part).last() == part);
}

/// A text wrapped in the configured brackets.
pub open spec fn bracketed(t: Seq<char>, cfg: ConfigView) -> Seq<char> {
    cfg.bracket_open + t + cfg.bracket_close
}

impl<K: RenderKey> KeyValue<K> {
    /// Writes the term out.
    pub fn display(&self, config: &LogicFmtConfig) -> (s: String)
        ensures
            s@ == term_text::<K>(self@, config@),
    {
        let mut s = self.key.render_key();
        if config.show_value.allows(self.value) {
            s.append(config.pre_value.as_str());
            let v = u32_string(self.value);
            s.append(v.as_str());
            s.append(config.post_value.as_str());
        }
        s
    }
}

} // verus!
