//! Configuration of the renderer: connective texts, value decoration,
//! bracketing and the separator between top-level groups.

use vstd::prelude::*;

verus! {

/// Decides whether a term's threshold value is written out after its
/// identifier.
#[derive(Debug, Clone, Copy, PartialEq, Eq, Structural)]
pub enum ValueFilter {
    /// Write every value.
    Always,
    /// Write no value.
    Never,
    /// Write the value only when it reaches the bound.
    AtLeast(u32),
}

/// What the filter decides for a given value.
pub open spec fn filter_allows(f: ValueFilter, v: u32) -> bool {
    match f {
        ValueFilter::Always => true,
        ValueFilter::Never => false,
        ValueFilter::AtLeast(bound) => v >= bound,
    }
}

impl ValueFilter {
    /// Applies the filter to one value.
    pub fn allows(&self, v: u32) -> (r: bool)
        ensures
            r == filter_allows(*self, v),
    {
        match self {
            ValueFilter::Always => true,
            ValueFilter::Never => false,
            ValueFilter::AtLeast(bound) => v >= *bound,
        }
    }
}

/// How rendered text is put together.
#[derive(Debug, Clone)]
pub struct LogicFmtConfig {
    /// Text joining AND-related parts.
    pub and: String,
    /// Text joining OR-related parts.
    pub or: String,
    /// Text between an identifier and its value.
    pub pre_value: String,
    /// Text after a value.
    pub post_value: String,
    /// Whether a value is shown at all.
    pub show_value: ValueFilter,
    /// Extra separator written immediately before the AND text that
    /// joins top-level groups, and nowhere else.
    pub top_level_sep: String,
    /// Opening bracket text.
    pub bracket_open: String,
    /// Closing bracket text.
    pub bracket_close: String,
}

/// The model of a configuration: every text as its character sequence.
#[verifier::ext_equal]
pub struct ConfigView {
    pub and: Seq<char>,
    pub or: Seq<char>,
    pub pre_value: Seq<char>,
    pub post_value: Seq<char>,
    pub show_value: ValueFilter,
    pub top_level_sep: Seq<char>,
    pub bracket_open: Seq<char>,
    pub bracket_close: Seq<char>,
}

impl View for LogicFmtConfig {
    type V = ConfigView;

    open spec fn view(&self) -> ConfigView {
        ConfigView {
            and: self.and@,
            or: self.or@,
            pre_value: self.pre_value@,
            post_value: self.post_value@,
            show_value: self.show_value,
            top_level_sep: self.top_level_sep@,
            bracket_open: self.bracket_open@,
            bracket_close: self.bracket_close@,
        }
    }
}

/// The model of the plain default configuration.
pub open spec fn basic_config() -> ConfigView {
    ConfigView {
        and: " and "@,
        or: " or "@,
        pre_value: ": "@,
        post_value: ""@,
        show_value: ValueFilter::Always,
        top_level_sep: ""@,
        bracket_open: "("@,
        bracket_close: ")"@,
    }
}

impl LogicFmtConfig {
    /// The plain configuration: lower-case connective words, a colon
    /// before each value, round brackets, no top-level separator.
    pub fn basic() -> (r: Self)
        ensures
            r@ == basic_config(),
    {
        LogicFmtConfig {
            and: " and ".to_owned(),
            or: " or ".to_owned(),
            pre_value: ": ".to_owned(),
            post_value: "".to_owned(),
            show_value: ValueFilter::Always,
            top_level_sep: "".to_owned(),
            bracket_open: "(".to_owned(),
            bracket_close: ")".to_owned(),
        }
    }

    /// The plain configuration with the two connective texts replaced.
    pub fn new(and: String, or: String) -> (r: Self)
        ensures
            r@ == (ConfigView { and: and@, or: or@, ..basic_config() }),
    {
        let mut config = Self::basic();
        config.and = and;
        config.or = or;
        config
    }

    /// Replaces the text written between an identifier and its value.
    pub fn value_prefix(self, pre: String) -> (r: Self)
        ensures
            r@ == (ConfigView { pre_value: pre@, ..self@ }),
    {
        let mut updated = self;
        updated.pre_value = pre;
        updated
    }

    /// Replaces the text written after a value.
    pub fn value_postfix(self, post: String) -> (r: Self)
        ensures
            r@ == (ConfigView { post_value: post@, ..self@ }),
    {
        let mut updated = self;
        updated.post_value = post;
        updated
    }

    /// Replaces the rule deciding whether values are written.
    pub fn show_value_if(self, condition: ValueFilter) -> (r: Self)
        ensures
            r@ == (ConfigView { show_value: condition, ..self@ }),
    {
        let mut updated = self;
        updated.show_value = condition;
        updated
    }

    /// Replaces the separator written before the AND text between
    /// top-level groups.
    pub fn separate_top_level_with(self, sep: String) -> (r: Self)
        ensures
            r@ == (ConfigView { top_level_sep: sep@, ..self@ }),
    {
        let mut updated = self;
        updated.top_level_sep = sep;
        updated
    }

    /// Removes the brackets.
    pub fn no_brackets(self) -> (r: Self)
        ensures
            r@ == (ConfigView { bracket_open: Seq::empty(), bracket_close: Seq::empty(), ..self@ }),
    {
        let mut updated = self;
        updated.bracket_open = "".to_owned();
        updated.bracket_close = "".to_owned();
        proof {
            reveal_strlit("");
            assert(updated@ =~= (ConfigView {
                bracket_open: Seq::empty(),
                bracket_close: Seq::empty(),
                ..self@
            }));
        }
        updated
    }
}

impl Default for LogicFmtConfig {
    /// The default configuration is the plain one.
    fn default() -> (r: Self)
        ensures
            r@ == basic_config(),
    {
        Self::basic()
    }
}

} // verus!
