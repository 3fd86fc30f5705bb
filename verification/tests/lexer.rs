use craftbook::logic::{KeyValue, LogicChain, LogicNode, Logical};
use craftbook::parse::record::{any_recipe, recipe, side_effect};
use craftbook::parse::text::logic_chain;
use craftbook::parse::{ParseError, ParseErrorKind};
use craftbook::recipe::{AnyRecipe, FromAny, GenericRecipe, SideEffect};
use craftbook::display::LogicFmtConfig;
use craftbook::Recipe;

fn chars(s: &str) -> usize {
    s.chars().count()
}

#[test]
fn test_side_effect_script() {
    const SAMPLE: &str = "script fix_boy@fix_Tribal";
    let correct = SideEffect::Script {
        module: "fix_boy".to_string(),
        function: "fix_Tribal".to_string(),
    };
    let (_, parsed) = side_effect(SAMPLE, chars(SAMPLE), 0).unwrap();
    assert_eq!(correct, parsed);
}

#[test]
fn test_side_effect_exp() {
    const SAMPLE: &str = "exp 100";
    let correct = SideEffect::Experience(100);
    let (_, parsed) = side_effect(SAMPLE, chars(SAMPLE), 0).unwrap();
    assert_eq!(correct, parsed);
}

#[test]
fn test_zaplatka() {
    const SAMPLE: &str = "\
        PID_ZAPLATKA_CRAFT_BASIC@Разделитель раздела для создания простейших вещей.\
        @@@PID_ZAPLATKA_CRAFT_BASIC 1@@PID_ZAPLATKA_CRAFT_BASIC 1@script fix_boy@fix_Tribal\
    ";
    let correct = GenericRecipe {
        name: "PID_ZAPLATKA_CRAFT_BASIC".to_string(),
        description: Some("Разделитель раздела для создания простейших вещей.".to_string()),
        params_to_see: None,
        params_to_craft: None,
        ingredients: LogicChain {
            first: KeyValue {
                key: "PID_ZAPLATKA_CRAFT_BASIC".to_string(),
                value: 1,
            },
            rest: vec![],
        },
        tools: None,
        output: LogicChain {
            first: KeyValue {
                key: "PID_ZAPLATKA_CRAFT_BASIC".to_string(),
                value: 1,
            },
            rest: vec![],
        },
        side_effect: SideEffect::Script {
            module: "fix_boy".to_string(),
            function: "fix_Tribal".to_string(),
        },
    };
    let (_, parsed) = recipe(SAMPLE, chars(SAMPLE), 0).unwrap();
    assert_eq!(correct, parsed);
}

#[test]
fn test_jet() {
    const SAMPLE: &str = "\
        PID_EMPTY_JET@Пустая банка для Джета. Расплавьте пластиковую бутылку и полученную жидкость влейте в форму, \
        после чего из различного мусора соберите простейший клапан и закрепите на еще горячем пластике.\
        @@SK_REPAIR 100|SK_SCIENCE 100@PID_BOTTLE_EMPTY 5&PID_CRAFT_L_LINT 5&PID_CRAFT_M_JUNK 1@PID_KNIFE 1&PID_LIGHTER 1@PID_EMPTY_JET 5\
        @script fix_boy@fix_FreeHands
    ";
    let correct = GenericRecipe {
        name: "PID_EMPTY_JET".to_string(),
        description: Some("Пустая банка для Джета. Расплавьте пластиковую бутылку и полученную жидкость влейте в форму, \
        после чего из различного мусора соберите простейший клапан и закрепите на еще горячем пластике.".to_string()),
        params_to_see: None,
        params_to_craft: Some(LogicChain {
            first: KeyValue {
                key: "SK_REPAIR".to_string(),
                value: 100,
            },
            rest: vec![
                (Logical::Or, KeyValue {
                    key: "SK_SCIENCE".to_string(),
                    value: 100,
                }),
            ],
        }),
        ingredients: LogicChain {
            first: KeyValue {
                key: "PID_BOTTLE_EMPTY".to_string(),
                value: 5,
            },
            rest: vec![
                (Logical::And, KeyValue {
                    key: "PID_CRAFT_L_LINT".to_string(),
                    value: 5,
                }),
                (Logical::And, KeyValue {
                    key: "PID_CRAFT_M_JUNK".to_string(),
                    value: 1,
                }),
            ],
        },
        tools: Some(LogicChain {
            first: KeyValue {
                key: "PID_KNIFE".to_string(),
                value: 1,
            },
            rest: vec![
                (Logical::And, KeyValue {
                    key: "PID_LIGHTER".to_string(),
                    value: 1,
                }),
            ],
        }),
        output: LogicChain {
            first: KeyValue {
                key: "PID_EMPTY_JET".to_string(),
                value: 5,
            },
            rest: vec![],
        },
        side_effect: SideEffect::Script {
            module: "fix_boy".to_string(),
            function: "fix_FreeHands".to_string(),
        },
    };
    let (_, parsed) = recipe(SAMPLE, chars(SAMPLE), 0).unwrap();
    assert_eq!(correct, parsed);
}

fn assert_eq_display(original: &str, new: &str) {
    let config = LogicFmtConfig::basic();
    let chain: LogicChain<String> = logic_chain(original).unwrap();
    assert_eq!(new, chain.display(&config));
    let nodes: LogicNode<String> = chain.logic_nodes();
    assert_eq!(new, nodes.display(&config));
}

#[test]
fn test_logic_chain_display() {
    assert_eq_display("SK_REPAIR 100", "SK_REPAIR: 100");
    assert_eq_display(
        "SK_REPAIR 100|SK_SCIENCE 100",
        "SK_REPAIR: 100 or SK_SCIENCE: 100",
    );
    assert_eq_display(
        "SK_REPAIR 100|SK_SCIENCE 100&SK_DOCTOR 100",
        "(SK_REPAIR: 100 or SK_SCIENCE: 100) and SK_DOCTOR: 100",
    );
    assert_eq_display(
        "SK_REPAIR 100&SK_SCIENCE 100|SK_DOCTOR 100",
        "SK_REPAIR: 100 and (SK_SCIENCE: 100 or SK_DOCTOR: 100)",
    );
    assert_eq_display(
        "SK_REPAIR 100|SK_SCIENCE 100&SK_DOCTOR 100|SK_OUTDOORSMAN 100",
        "(SK_REPAIR: 100 or SK_SCIENCE: 100) and (SK_DOCTOR: 100 or SK_OUTDOORSMAN: 100)",
    );
}

#[test]
fn net_meat_jerky() {
    let net = "!PID_MEAT_JERKY@Meat dried over a fire pit.@0 0 1 0 1 217 1 100 1 0 2 1440 125 2 4 1 2 0 0 1 3979 1 1 1 0 2 284 542 2 3 1 script";
    let (_, res_net) = any_recipe(net).unwrap();
    assert!(matches!(res_net, AnyRecipe::Numeric(_)));
}

fn meat_jerkies() -> (Recipe<String, u32>, Recipe<String, String>) {
    let net = "!PID_MEAT_JERKY@Meat dried over a fire pit.@0 0 1 0 1 217 1 100 1 0 2 1440 125 2 4 1 2 0 0 1 3979 1 1 1 0 2 284 542 2 3 1 script";
    let file = "PID_MEAT_JERKY@Meat dried over a fire pit.@@SK_OUTDOORSMAN 100@PID_RAD_MEAT 4&PID_SPIRIT 1@PID_FIREPLACE_TOKEN 1@PID_MEAT_JERKY 3&PID_BOTTLE_GLASS 1@script fix_boy@fix_Tribal";

    let (_, res_net) = any_recipe(net).unwrap();
    let (_, res_file) = any_recipe(file).unwrap();

    let numeric: Recipe<String, u32> =
        <Recipe<String, u32> as FromAny>::from_any(res_net).unwrap();
    let textual: Recipe<String, String> =
        <Recipe<String, String> as FromAny>::from_any(res_file).unwrap();
    (numeric, textual)
}

fn assert_eq_chain<K, K2>(a: Option<&LogicChain<K>>, b: Option<&LogicChain<K2>>) {
    let (Some(a), Some(b)) = (&a, &b) else {
        assert_eq!(a.is_none(), b.is_none());
        return;
    };
    assert_eq!(a.first.value, b.first.value);
    assert_eq!(a.rest.len(), b.rest.len());
    for ((a_logical, a_kv), (b_logical, b_kv)) in a.rest.iter().zip(b.rest.iter()) {
        assert_eq!(a_logical, b_logical);
        assert_eq!(a_kv.value, b_kv.value);
    }
}

#[test]
fn sameish_meat_jerky() {
    let (numeric, textual) = meat_jerkies();

    assert_eq!(numeric.name, textual.name);
    assert_eq!(numeric.description, textual.description);
    assert_eq_chain(numeric.params_to_see.as_ref(), textual.params_to_see.as_ref());
    assert_eq_chain(numeric.params_to_craft.as_ref(), textual.params_to_craft.as_ref());
    assert_eq_chain(numeric.tools.as_ref(), textual.tools.as_ref());
    assert_eq_chain(Some(&numeric.ingredients), Some(&textual.ingredients));
    assert_eq_chain(Some(&numeric.output), Some(&textual.output));
}

#[test]
fn convert_to_node_recipe() {
    let (numeric, textual) = meat_jerkies();
    let _textual: craftbook::NodeRecipe<String, String> = textual.into_nodes();
    let _numeric: craftbook::NodeRecipe<String, u32> = numeric.into_nodes();
}

#[test]
fn malformed_token_on_missing_value() {
    let err = logic_chain::<String>("SK_REPAIR").unwrap_err();
    assert_eq!(err.kind, ParseErrorKind::MalformedToken);
    assert_eq!(err.pos, 9);
}

#[test]
fn trailing_content_is_refused() {
    let err = logic_chain::<String>("SK_REPAIR 100 | ").unwrap_err();
    assert_eq!(
        err,
        ParseError {
            pos: 14,
            kind: ParseErrorKind::TrailingUnconsumed
        }
    );
}

#[test]
fn numeric_instantiation_rejects_words() {
    let err = logic_chain::<u32>("SK_REPAIR 100").unwrap_err();
    assert_eq!(err.kind, ParseErrorKind::MalformedToken);
    let ok: LogicChain<u32> = logic_chain::<u32>("217 100").unwrap();
    assert_eq!(ok.first, KeyValue { key: 217, value: 100 });
}

#[test]
fn structural_mismatch_on_wrong_grammar() {
    let file = "A@d@@@A 1@@A 1@exp 5";
    let (_, parsed) = any_recipe(file).unwrap();
    let err = <Recipe<String, u32> as FromAny>::from_any(parsed).unwrap_err();
    assert_eq!(err.kind, ParseErrorKind::StructuralMismatch);
}
