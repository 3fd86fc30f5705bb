use craftbook::book::RecipeBook;
use craftbook::display::LogicFmtConfig;
use craftbook::key::KeyMeaning;
use craftbook::logic::{KeyValue, LogicChain, LogicNode, Logical};
use craftbook::parse::numeric::optional_numeric_logic_chain_ext;
use craftbook::parse::ParseErrorKind;
use craftbook::typed::{IdentityMapper, RejectKey};
use craftbook::{NodeRecipe, Recipe};

fn kv(key: &str, value: u32) -> KeyValue<String> {
    KeyValue {
        key: key.to_string(),
        value,
    }
}

#[test]
fn singleton_chain_collapses_to_leaf() {
    let c = LogicChain {
        first: kv("A", 1),
        rest: vec![],
    };
    assert_eq!(c.logic_nodes(), LogicNode::KeyValue(kv("A", 1)));
}

#[test]
fn all_or_chain_collapses_to_one_disjunction() {
    let c = LogicChain {
        first: kv("A", 1),
        rest: vec![(Logical::Or, kv("B", 2)), (Logical::Or, kv("C", 3))],
    };
    assert_eq!(
        c.logic_nodes(),
        LogicNode::Or(vec![
            LogicNode::KeyValue(kv("A", 1)),
            LogicNode::KeyValue(kv("B", 2)),
            LogicNode::KeyValue(kv("C", 3)),
        ])
    );
}

#[test]
fn all_and_chain_becomes_conjunction_of_leaves() {
    let c = LogicChain {
        first: kv("A", 1),
        rest: vec![(Logical::And, kv("B", 2)), (Logical::And, kv("C", 3))],
    };
    assert_eq!(
        c.logic_nodes(),
        LogicNode::And(vec![
            LogicNode::KeyValue(kv("A", 1)),
            LogicNode::KeyValue(kv("B", 2)),
            LogicNode::KeyValue(kv("C", 3)),
        ])
    );
}

#[test]
fn conversion_is_deterministic() {
    let build = || LogicChain {
        first: kv("A", 1),
        rest: vec![(Logical::Or, kv("B", 2)), (Logical::And, kv("C", 3))],
    };
    assert_eq!(build().logic_nodes(), build().logic_nodes());
}

#[test]
fn or_binds_tighter_than_and() {
    let c = LogicChain {
        first: kv("A", 1),
        rest: vec![(Logical::Or, kv("B", 2)), (Logical::And, kv("C", 3))],
    };
    assert_eq!(
        c.logic_nodes(),
        LogicNode::And(vec![
            LogicNode::Or(vec![
                LogicNode::KeyValue(kv("A", 1)),
                LogicNode::KeyValue(kv("B", 2)),
            ]),
            LogicNode::KeyValue(kv("C", 3)),
        ])
    );
}

#[test]
fn positional_field_without_disjunction() {
    let input = "1 1 1 217";
    let (read, parsed) =
        optional_numeric_logic_chain_ext(input, input.chars().count(), 0, false).unwrap();
    assert_eq!(read, input.chars().count());
    assert_eq!(
        parsed,
        Some(LogicChain {
            first: KeyValue { key: 1, value: 217 },
            rest: vec![],
        })
    );
}

#[test]
fn positional_field_with_zero_count_is_absent() {
    let input = "0 0";
    let (read, parsed) =
        optional_numeric_logic_chain_ext(input, input.chars().count(), 0, false).unwrap();
    assert_eq!(read, input.chars().count());
    assert_eq!(parsed, None);
}

#[test]
fn positional_field_with_or_flags() {
    // three terms; the flag of the second position marks it OR-joined
    let input = "3 10 20 30 3 1 2 3 3 0 1 0";
    let (_, parsed) =
        optional_numeric_logic_chain_ext(input, input.chars().count(), 0, true).unwrap();
    assert_eq!(
        parsed,
        Some(LogicChain {
            first: KeyValue { key: 10, value: 1 },
            rest: vec![
                (Logical::Or, KeyValue { key: 20, value: 2 }),
                (Logical::And, KeyValue { key: 30, value: 3 }),
            ],
        })
    );
}

#[test]
fn declared_count_beyond_tokens_is_unexpected_end() {
    let input = "3 1 2";
    let err =
        optional_numeric_logic_chain_ext(input, input.chars().count(), 0, false).unwrap_err();
    assert_eq!(err.kind, ParseErrorKind::UnexpectedEnd);
}

#[test]
fn count_that_is_no_number_is_malformed() {
    let input = "x 1";
    let err =
        optional_numeric_logic_chain_ext(input, input.chars().count(), 0, false).unwrap_err();
    assert_eq!(err.kind, ParseErrorKind::MalformedToken);
    assert_eq!(err.pos, 0);
}

fn numeric_chain() -> LogicChain<u32> {
    LogicChain {
        first: KeyValue { key: 10, value: 1 },
        rest: vec![
            (Logical::Or, KeyValue { key: 20, value: 2 }),
            (Logical::And, KeyValue { key: 30, value: 3 }),
        ],
    }
}

#[test]
fn remapping_identity_keeps_chain() {
    let c = numeric_chain();
    let mapped = c.with_keys(&IdentityMapper, KeyMeaning::Item).unwrap();
    assert_eq!(c, mapped);
}

#[test]
fn remapping_identity_keeps_tree() {
    let n = numeric_chain().logic_nodes();
    let mapped = n.with_keys(&IdentityMapper, KeyMeaning::Item).unwrap();
    assert_eq!(n, mapped);
}

#[test]
fn remapping_failure_is_the_single_error() {
    let c = numeric_chain();
    let err = c
        .with_keys(&RejectKey { key: 20 }, KeyMeaning::Item)
        .unwrap_err();
    assert_eq!(err.kind, ParseErrorKind::IdentifierNotFound);
    assert_eq!(err.pos, 20);
    let n = numeric_chain().logic_nodes();
    let err = n
        .with_keys(&RejectKey { key: 30 }, KeyMeaning::Item)
        .unwrap_err();
    assert_eq!(err.kind, ParseErrorKind::IdentifierNotFound);
    assert_eq!(err.pos, 30);
}

#[test]
fn remapping_rewrites_keys_and_keeps_values() {
    let c = numeric_chain();
    let mapped = c.with_keys(&RejectKey { key: 99 }, KeyMeaning::Item).unwrap();
    assert_eq!(c, mapped);
}

#[test]
fn typed_fields_use_their_namespace() {
    let line = "!R@d@0 0 1 0 1 217 1 100 1 0 1 10 1 4 1 0 0 0 0 1 20 1 3 script";
    let (_, any) = craftbook::parse::record::any_recipe(line).unwrap();
    let recipe: Recipe<String, u32> =
        <Recipe<String, u32> as craftbook::recipe::FromAny>::from_any(any).unwrap();
    let craft = recipe.params_to_craft().unwrap();
    let mapped = craft.map_keys(&IdentityMapper).unwrap();
    assert_eq!(mapped, *craft.logic());
    let ing = recipe.ingredients();
    assert_eq!(ing.logic().first, KeyValue { key: 10, value: 4 });
}

#[test]
fn recipe_remapping_walks_every_field() {
    let (numeric, _) = sample_recipes();
    let err = numeric
        .clone()
        .with_keys(&RejectKey { key: 1440 })
        .unwrap_err();
    assert_eq!(err.kind, ParseErrorKind::IdentifierNotFound);
    assert_eq!(err.pos, 1440);
    let same = numeric.clone().with_keys(&IdentityMapper).unwrap();
    assert_eq!(numeric, same);
}

fn sample_recipes() -> (Recipe<String, u32>, Recipe<String, String>) {
    let net = "!PID_MEAT_JERKY@Meat dried over a fire pit.@0 0 1 0 1 217 1 100 1 0 2 1440 125 2 4 1 2 0 0 1 3979 1 1 1 0 2 284 542 2 3 1 script";
    let file = "PID_MEAT_JERKY@Meat dried over a fire pit.@@SK_OUTDOORSMAN 100@PID_RAD_MEAT 4&PID_SPIRIT 1@PID_FIREPLACE_TOKEN 1@PID_MEAT_JERKY 3&PID_BOTTLE_GLASS 1@script fix_boy@fix_Tribal";
    let (_, a) = craftbook::parse::record::any_recipe(net).unwrap();
    let (_, b) = craftbook::parse::record::any_recipe(file).unwrap();
    (
        <Recipe<String, u32> as craftbook::recipe::FromAny>::from_any(a).unwrap(),
        <Recipe<String, String> as craftbook::recipe::FromAny>::from_any(b).unwrap(),
    )
}

#[test]
fn round_trip_chain_and_tree_render() {
    let config = LogicFmtConfig::basic();
    let (_, textual) = sample_recipes();
    let chain = textual.ingredients.clone();
    let direct = chain.display(&config);
    let through_tree = chain.logic_nodes().display(&config);
    assert_eq!(direct, through_tree);
}

#[test]
fn book_keeps_last_recipe_per_number() {
    let lines = vec![
        (7u32, "A@@@@A 1@@A 2@exp 5".to_string()),
        (3u32, "B@@@@B 1@@B 2@exp 5".to_string()),
        (7u32, "C@@@@C 1@@C 2@exp 5".to_string()),
    ];
    let book: RecipeBook<Recipe<String, String>> = RecipeBook::try_from_iter(&lines).unwrap();
    assert_eq!(book.recipes.len(), 2);
    assert_eq!(book.recipes[0].0, 3);
    assert_eq!(book.recipes[0].1.internal_name().as_str(), "B");
    assert_eq!(book.recipes[1].0, 7);
    assert_eq!(book.recipes[1].1.internal_name().as_str(), "C");
}

#[test]
fn book_reports_first_failing_record() {
    let lines = vec![
        (1u32, "A@@@@A 1@@A 2@exp 5".to_string()),
        (2u32, "broken".to_string()),
    ];
    let err = RecipeBook::<Recipe<String, String>>::try_from_iter(&lines).unwrap_err();
    assert_eq!(err.index, 2);
}

#[test]
fn book_maps_recipes_in_place() {
    let lines = vec![
        (1u32, "A@@@@A 1@@A 2@exp 5".to_string()),
        (2u32, "B@@@@B 1@@B 2@exp 5".to_string()),
    ];
    let book: RecipeBook<Recipe<String, String>> = RecipeBook::try_from_iter(&lines).unwrap();
    let node_book: RecipeBook<NodeRecipe<String, String>> = book
        .map_recipes(|r| Ok::<_, ()>(r.into_nodes()))
        .unwrap();
    assert_eq!(node_book.recipes.len(), 2);
    assert_eq!(node_book.recipes[0].1.internal_name().as_str(), "A");
}
