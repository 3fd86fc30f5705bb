use craftbook::display::{LogicFmtConfig, ValueFilter};
use craftbook::logic::{KeyValue, LogicChain, Logical};
use craftbook::parse::text::logic_chain;

fn chain(s: &str) -> LogicChain<String> {
    logic_chain(s).unwrap()
}

#[test]
fn parse_example_one() {
    let c = chain("SK_REPAIR 100");
    assert_eq!(
        c,
        LogicChain {
            first: KeyValue {
                key: "SK_REPAIR".to_string(),
                value: 100
            },
            rest: vec![],
        }
    );
    assert_eq!("SK_REPAIR: 100", c.display(&LogicFmtConfig::basic()));
}

#[test]
fn numeric_keys_render_in_decimal() {
    let c = LogicChain {
        first: KeyValue {
            key: 1440u32,
            value: 4,
        },
        rest: vec![(Logical::And, KeyValue { key: 125, value: 1 })],
    };
    assert_eq!("1440: 4 and 125: 1", c.display(&LogicFmtConfig::basic()));
}

#[test]
fn value_zero_renders_as_single_digit() {
    let t = KeyValue {
        key: "X".to_string(),
        value: 0,
    };
    assert_eq!("X: 0", t.display(&LogicFmtConfig::basic()));
    let big = KeyValue {
        key: "Y".to_string(),
        value: 4294967295,
    };
    assert_eq!("Y: 4294967295", big.display(&LogicFmtConfig::basic()));
}

#[test]
fn configured_connectives_and_decorations() {
    let config = LogicFmtConfig::new(" plus ".to_string(), " else ".to_string())
        .value_prefix(" x".to_string())
        .value_postfix(".".to_string());
    let c = chain("A 1|B 2&C 3");
    assert_eq!("(A x1. else B x2.) plus C x3.", c.display(&config));
}

#[test]
fn hidden_values_and_no_brackets() {
    let config = LogicFmtConfig::basic()
        .show_value_if(ValueFilter::Never)
        .no_brackets();
    let c = chain("A 1|B 2&C 3");
    assert_eq!("A or B and C", c.display(&config));
    let at_least = LogicFmtConfig::basic().show_value_if(ValueFilter::AtLeast(2));
    assert_eq!("(A or B: 2) and C: 3", c.display(&at_least));
}

#[test]
fn top_level_separator_between_groups() {
    let config = LogicFmtConfig::basic().separate_top_level_with(", ".to_string());
    let c = chain("A 1&B 2&C 3");
    assert_eq!("A: 1,  and B: 2,  and C: 3", c.display(&config));
    assert_eq!("A: 1,  and B: 2,  and C: 3", c.logic_nodes().display(&config));
}

#[test]
fn top_level_separator_skips_lone_disjunction() {
    let config = LogicFmtConfig::basic().separate_top_level_with(", ".to_string());
    let c = chain("A 1|B 2");
    assert_eq!("A: 1 or B: 2", c.display(&config));
    assert_eq!("A: 1 or B: 2", c.logic_nodes().display(&config));
}

#[test]
fn separated_paths_agree_on_mixed_chains() {
    let config = LogicFmtConfig::basic().separate_top_level_with("; ".to_string());
    let c = chain("A 1|B 2&C 3");
    let direct = c.display(&config);
    assert_eq!("(A: 1 or B: 2);  and C: 3", direct);
    assert_eq!(direct, c.logic_nodes().display(&config));
}

#[test]
fn lst_file_names() {
    assert_eq!("ItemNames", craftbook::key::KeyMeaning::Item.lst_file_name());
    assert_eq!("ParamNames", craftbook::key::KeyMeaning::Param.lst_file_name());
}
