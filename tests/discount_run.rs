use discount_function::decimal::Decimal;
use discount_function::discount::{
    cart_lines_discounts_generate_run, has_class, max_subtotal_line, CartLine, CartOperation,
    DiscountClass, Input, OrderDiscountCandidateTarget, OrderDiscountCandidateValue,
    OrderDiscountSelectionStrategy, ProductDiscountCandidateTarget, ProductDiscountCandidateValue,
    ProductDiscountSelectionStrategy, RunError,
};

fn line(id: &str, subtotal_amount: i64) -> CartLine {
    CartLine { id: id.to_string(), quantity: 1, subtotal_amount }
}

fn two_line_cart() -> Vec<CartLine> {
    vec![line("gid://shopify/CartLine/A", 500), line("gid://shopify/CartLine/B", 2000)]
}

fn input(lines: Vec<CartLine>, classes: Vec<DiscountClass>, metafield: Option<&str>) -> Input {
    Input { lines, discount_classes: classes, metafield: metafield.map(|s| s.to_string()) }
}

fn whole(n: u64) -> Decimal {
    Decimal { negative: false, mantissa: n, scale: 0 }
}

fn expect_order(op: &CartOperation, value: Decimal, message: &str) {
    match op {
        CartOperation::OrderDiscountsAdd(o) => {
            assert_eq!(o.selection_strategy, OrderDiscountSelectionStrategy::First);
            assert_eq!(o.candidates.len(), 1);
            let c = &o.candidates[0];
            assert_eq!(c.targets.len(), 1);
            match &c.targets[0] {
                OrderDiscountCandidateTarget::OrderSubtotal(t) => {
                    assert!(t.excluded_cart_line_ids.is_empty())
                }
            }
            assert_eq!(c.message.as_deref(), Some(message));
            let OrderDiscountCandidateValue::Percentage(p) = c.value;
            assert_eq!(p.value, value);
        }
        other => panic!("expected an order discount, got {:?}", other),
    }
}

fn expect_product(op: &CartOperation, id: &str, value: Decimal, message: &str) {
    match op {
        CartOperation::ProductDiscountsAdd(o) => {
            assert_eq!(o.selection_strategy, ProductDiscountSelectionStrategy::First);
            assert_eq!(o.candidates.len(), 1);
            let c = &o.candidates[0];
            assert_eq!(c.targets.len(), 1);
            match &c.targets[0] {
                ProductDiscountCandidateTarget::CartLine(t) => {
                    assert_eq!(t.id, id);
                    assert_eq!(t.quantity, None);
                }
            }
            assert_eq!(c.message.as_deref(), Some(message));
            let ProductDiscountCandidateValue::Percentage(p) = c.value;
            assert_eq!(p.value, value);
        }
        other => panic!("expected a product discount, got {:?}", other),
    }
}

#[test]
fn no_active_class_gives_no_operation() {
    let r = cart_lines_discounts_generate_run(&input(
        two_line_cart(),
        vec![DiscountClass::Shipping],
        Some("15"),
    ))
    .unwrap();
    assert!(r.operations.is_empty());
    let r = cart_lines_discounts_generate_run(&input(two_line_cart(), vec![], None)).unwrap();
    assert!(r.operations.is_empty());
}

#[test]
fn order_class_only_gives_order_discount() {
    let r = cart_lines_discounts_generate_run(&input(
        two_line_cart(),
        vec![DiscountClass::Order],
        None,
    ))
    .unwrap();
    assert_eq!(r.operations.len(), 1);
    expect_order(&r.operations[0], whole(10), "10% OFF ORDER");
}

#[test]
fn product_class_only_targets_largest_line() {
    let r = cart_lines_discounts_generate_run(&input(
        two_line_cart(),
        vec![DiscountClass::Product],
        None,
    ))
    .unwrap();
    assert_eq!(r.operations.len(), 1);
    expect_product(&r.operations[0], "gid://shopify/CartLine/B", whole(20), "20% OFF PRODUCT");
}

#[test]
fn both_classes_with_override() {
    let r = cart_lines_discounts_generate_run(&input(
        two_line_cart(),
        vec![DiscountClass::Order, DiscountClass::Product],
        Some("15"),
    ))
    .unwrap();
    assert_eq!(r.operations.len(), 2);
    expect_order(&r.operations[0], whole(15), "15% OFF ORDER");
    expect_product(&r.operations[1], "gid://shopify/CartLine/B", whole(30), "30% OFF PRODUCT");
}

#[test]
fn both_classes_in_either_order_give_order_discount_first() {
    let r = cart_lines_discounts_generate_run(&input(
        two_line_cart(),
        vec![DiscountClass::Product, DiscountClass::Order],
        Some("12.5"),
    ))
    .unwrap();
    assert_eq!(r.operations.len(), 2);
    expect_order(
        &r.operations[0],
        Decimal { negative: false, mantissa: 125, scale: 1 },
        "12.5% OFF ORDER",
    );
    expect_product(&r.operations[1], "gid://shopify/CartLine/B", whole(25), "25% OFF PRODUCT");
}

#[test]
fn empty_cart_is_an_error() {
    for classes in [
        vec![],
        vec![DiscountClass::Order],
        vec![DiscountClass::Product],
        vec![DiscountClass::Order, DiscountClass::Product],
    ] {
        let r = cart_lines_discounts_generate_run(&input(vec![], classes, Some("15")));
        let e = r.unwrap_err();
        assert_eq!(e, RunError::NoCartLines);
        assert_eq!(e.message(), "No cart lines found");
    }
}

#[test]
fn unparsable_override_defaults_to_ten() {
    let classes = vec![DiscountClass::Order, DiscountClass::Product];
    let with_text =
        cart_lines_discounts_generate_run(&input(two_line_cart(), classes.clone(), Some("abc")))
            .unwrap();
    let without = cart_lines_discounts_generate_run(&input(two_line_cart(), classes, None)).unwrap();
    for r in [&with_text, &without] {
        assert_eq!(r.operations.len(), 2);
        expect_order(&r.operations[0], whole(10), "10% OFF ORDER");
        expect_product(&r.operations[1], "gid://shopify/CartLine/B", whole(20), "20% OFF PRODUCT");
    }
}

#[test]
fn equal_subtotals_pick_the_first_line() {
    let lines = vec![line("a", 700), line("b", 900), line("c", 900), line("d", 100)];
    assert_eq!(max_subtotal_line(&lines), Some(1));
    let r = cart_lines_discounts_generate_run(&input(lines, vec![DiscountClass::Product], None))
        .unwrap();
    expect_product(&r.operations[0], "b", whole(20), "20% OFF PRODUCT");
}

#[test]
fn single_line_cart_and_negative_subtotals() {
    assert_eq!(max_subtotal_line(&vec![line("x", -5)]), Some(0));
    assert_eq!(max_subtotal_line(&vec![line("x", -5), line("y", -1)]), Some(1));
    assert_eq!(max_subtotal_line(&vec![]), None);
}

#[test]
fn class_lookup() {
    let classes = vec![DiscountClass::Shipping, DiscountClass::Product];
    assert!(has_class(&classes, DiscountClass::Product));
    assert!(!has_class(&classes, DiscountClass::Order));
    assert!(!has_class(&vec![], DiscountClass::Order));
}

#[test]
fn exponent_override() {
    let r = cart_lines_discounts_generate_run(&input(
        two_line_cart(),
        vec![DiscountClass::Order, DiscountClass::Product],
        Some("1e3"),
    ))
    .unwrap();
    assert_eq!(r.operations.len(), 2);
    expect_order(&r.operations[0], whole(1000), "1000% OFF ORDER");
    expect_product(&r.operations[1], "gid://shopify/CartLine/B", whole(2000), "2000% OFF PRODUCT");
}

#[test]
fn sub_cent_subtotals_are_told_apart() {
    let lines = vec![line("a", 10_010), line("b", 10_040)];
    assert_eq!(max_subtotal_line(&lines), Some(1));
}
