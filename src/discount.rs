//! The discount run: from the cart lines and the discount's configuration,
//! the operations that add an order discount and a product discount.
use vstd::prelude::*;

use crate::decimal::{
    decimal_text, double, doubled, is_canonical, parse_decimal, parse_spec, pow10, ten,
    ten_spec, Decimal, MAX_DIGITS,
};

verus! {

/// A kind of discount that a configuration may apply.
#[derive(Clone, Copy, Debug, PartialEq, Eq, Structural)]
pub enum DiscountClass {
    Order,
    Product,
    Shipping,
}

/// One line of the cart: its id, quantity, and subtotal in ten-thousandths
/// of the currency unit, a unit fine enough for every currency's precision.
#[derive(Clone, Debug)]
pub struct CartLine {
    pub id: String,
    pub quantity: i64,
    pub subtotal_amount: i64,
}

/// What one run reads: the cart lines in order, the discount classes the
/// discount is active for, and the value of its configuration field, if any.
#[derive(Clone, Debug)]
pub struct Input {
    pub lines: Vec<CartLine>,
    pub discount_classes: Vec<DiscountClass>,
    pub metafield: Option<String>,
}

#[derive(Clone, Copy, Debug, PartialEq, Eq, Structural)]
pub enum OrderDiscountSelectionStrategy {
    First,
}

#[derive(Clone, Copy, Debug, PartialEq, Eq, Structural)]
pub enum ProductDiscountSelectionStrategy {
    First,
}

#[derive(Clone, Copy, Debug, PartialEq, Eq, Structural)]
pub struct Percentage {
    pub value: Decimal,
}

#[derive(Clone, Debug)]
pub struct OrderSubtotalTarget {
    pub excluded_cart_line_ids: Vec<String>,
}

#[derive(Clone, Debug)]
pub enum OrderDiscountCandidateTarget {
    OrderSubtotal(OrderSubtotalTarget),
}

#[derive(Clone, Copy, Debug, PartialEq, Eq, Structural)]
pub enum OrderDiscountCandidateValue {
    Percentage(Percentage),
}

#[derive(Clone, Debug)]
pub struct OrderDiscountCandidate {
    pub targets: Vec<OrderDiscountCandidateTarget>,
    pub message: Option<String>,
    pub value: OrderDiscountCandidateValue,
}

#[derive(Clone, Debug)]
pub struct OrderDiscountsAddOperation {
    pub selection_strategy: OrderDiscountSelectionStrategy,
    pub candidates: Vec<OrderDiscountCandidate>,
}

#[derive(Clone, Debug)]
pub struct CartLineTarget {
    pub id: String,
    pub quantity: Option<i64>,
}

#[derive(Clone, Debug)]
pub enum ProductDiscountCandidateTarget {
    CartLine(CartLineTarget),
}

#[derive(Clone, Copy, Debug, PartialEq, Eq, Structural)]
pub enum ProductDiscountCandidateValue {
    Percentage(Percentage),
}

#[derive(Clone, Debug)]
pub struct ProductDiscountCandidate {
    pub targets: Vec<ProductDiscountCandidateTarget>,
    pub message: Option<String>,
    pub value: ProductDiscountCandidateValue,
}

#[derive(Clone, Debug)]
pub struct ProductDiscountsAddOperation {
    pub selection_strategy: ProductDiscountSelectionStrategy,
    pub candidates: Vec<ProductDiscountCandidate>,
}

#[derive(Clone, Debug)]
pub enum CartOperation {
    OrderDiscountsAdd(OrderDiscountsAddOperation),
    ProductDiscountsAdd(ProductDiscountsAddOperation),
}

#[derive(Clone, Debug)]
pub struct CartLinesDiscountsGenerateRunResult {
    pub operations: Vec<CartOperation>,
}

/// Why a run produced no result.
#[derive(Clone, Copy, Debug, PartialEq, Eq, Structural)]
pub enum RunError {
    NoCartLines,
}

impl RunError {
    /// The text that reports the error.
    pub fn message(&self) -> (r: &'static str)
        ensures
            r@ == "No cart lines found"@,
    {
        match self {
            RunError::NoCartLines => "No cart lines found",
        }
    }
}

/// Line `i` has the largest subtotal, and every line before it a smaller one.
pub open spec fn is_first_max(lines: Seq<CartLine>, i: int) -> bool {
    &&& 0 <= i < lines.len()
    &&& forall|j: int| 0 <= j < lines.len() ==> lines[j].subtotal_amount <= lines[i].subtotal_amount
    &&& forall|j: int| 0 <= j < i ==> lines[j].subtotal_amount < lines[i].subtotal_amount
}

/// The id of the first line with the largest subtotal.
pub open spec fn max_line_id(lines: Seq<CartLine>) -> Seq<char> {
    lines[choose|i: int| is_first_max(lines, i)].id@
}

/// Every non-empty cart has a first line with the largest subtotal.
pub proof fn lemma_first_max_exists(lines: Seq<CartLine>)
    requires
        lines.len() > 0,
    ensures
        exists|i: int| is_first_max(lines, i),
    decreases lines.len(),
{
    if lines.len() == 1 {
        assert(is_first_max(lines, 0));
    } else {
        let init = lines.drop_last();
        lemma_first_max_exists(init);
        let i = choose|i: int| is_first_max(init, i);
        let last = lines.len() - 1;
        assert(forall|j: int| 0 <= j < init.len() ==> init[j] == lines[j]);
        if lines[last].subtotal_amount > lines[i].subtotal_amount {
            assert(is_first_max(lines, last));
        } else {
            assert(is_first_max(lines, i));
        }
    }
}

/// At most one line is the first with the largest subtotal.
pub proof fn lemma_first_max_unique(lines: Seq<CartLine>, i: int, k: int)
    requires
        is_first_max(lines, i),
        is_first_max(lines, k),
    ensures
        i == k,
{
    if i < k {
        assert(lines[i].subtotal_amount < lines[k].subtotal_amount);
    } else if k < i {
        assert(lines[k].subtotal_amount < lines[i].subtotal_amount);
    }
}

/// The percentage a discount starts from: the configured value where it
/// is a float literal that a `Decimal` holds, else ten.
pub open spec fn base_percentage(metafield: Option<String>) -> Decimal {
    match metafield {
        Some(v) => match parse_spec(v@) {
            Some(d) => d,
            None => ten_spec(),
        },
        None => ten_spec(),
    }
}

pub open spec fn order_message(p: Decimal) -> Seq<char> {
    decimal_text(p) + "% OFF ORDER"@
}

pub open spec fn product_message(p: Decimal) -> Seq<char> {
    decimal_text(p) + "% OFF PRODUCT"@
}

/// An operation that adds one order discount of `p` percent on the whole
/// order subtotal, excluding no line.
pub open spec fn is_order_discount(op: CartOperation, p: Decimal) -> bool {
    match op {
        CartOperation::OrderDiscountsAdd(o) => {
            &&& o.selection_strategy == OrderDiscountSelectionStrategy::First
            &&& o.candidates@.len() == 1
            &&& o.candidates@[0].targets@.len() == 1
            &&& match o.candidates@[0].targets@[0] {
                OrderDiscountCandidateTarget::OrderSubtotal(t) => t.excluded_cart_line_ids@.len() == 0,
            }
            &&& o.candidates@[0].message matches Some(m) && m@ == order_message(p)
            &&& o.candidates@[0].value == OrderDiscountCandidateValue::Percentage(
                Percentage { value: p },
            )
        },
        _ => false,
    }
}

/// An operation that adds one product discount of `p` percent on the cart
/// line with id `id`, with no limit on the quantity.
pub open spec fn is_product_discount(op: CartOperation, id: Seq<char>, p: Decimal) -> bool {
    match op {
        CartOperation::ProductDiscountsAdd(o) => {
            &&& o.selection_strategy == ProductDiscountSelectionStrategy::First
            &&& o.candidates@.len() == 1
            &&& o.candidates@[0].targets@.len() == 1
            &&& match o.candidates@[0].targets@[0] {
                ProductDiscountCandidateTarget::CartLine(t) => t.id@ == id && t.quantity is None,
            }
            &&& o.candidates@[0].message matches Some(m) && m@ == product_message(p)
            &&& o.candidates@[0].value == ProductDiscountCandidateValue::Percentage(
                Percentage { value: p },
            )
        },
        _ => false,
    }
}

/// The operations of a run on a non-empty cart: an order discount of the
/// base percentage if the order class is active, then a product discount of
/// twice the base percentage on the first line with the largest subtotal if
/// the product class is active.
pub open spec fn operations_meet(
    ops: Seq<CartOperation>,
    lines: Seq<CartLine>,
    classes: Seq<DiscountClass>,
    metafield: Option<String>,
) -> bool {
    let order = classes.contains(DiscountClass::Order);
    let product = classes.contains(DiscountClass::Product);
    let p = base_percentage(metafield);
    if !order && !product {
        ops.len() == 0
    } else if order && !product {
        ops.len() == 1 && is_order_discount(ops[0], p)
    } else if !order && product {
        ops.len() == 1 && is_product_discount(ops[0], max_line_id(lines), doubled(p))
    } else {
        &&& ops.len() == 2
        &&& is_order_discount(ops[0], p)
        &&& is_product_discount(ops[1], max_line_id(lines), doubled(p))
    }
}

/// A configured value that does not parse gives the same operations as no
/// configured value at all.
pub proof fn lemma_unparsable_override_is_default(
    ops: Seq<CartOperation>,
    lines: Seq<CartLine>,
    classes: Seq<DiscountClass>,
    text: String,
)
    requires
        parse_spec(text@) is None,
    ensures
        base_percentage(Some(text)) == ten_spec(),
        operations_meet(ops, lines, classes, Some(text)) <==> operations_meet(
            ops,
            lines,
            classes,
            None,
        ),
{
}

/// The index of the first line with the largest subtotal, or `None` for an
/// empty cart.
pub fn max_subtotal_line(lines: &Vec<CartLine>) -> (r: Option<usize>)
    ensures
        r is None <==> lines@.len() == 0,
        r matches Some(i) ==> is_first_max(lines@, i as int),
{
    if lines.len() == 0 {
        return None;
    }
    let mut best: usize = 0;
    let mut i: usize = 1;
    while i < lines.len()
        invariant
            1 <= i <= lines@.len(),
            best < i,
            forall|j: int| 0 <= j < i ==> lines@[j].subtotal_amount <= lines@[best as int].subtotal_amount,
            forall|j: int| 0 <= j < best ==> lines@[j].subtotal_amount < lines@[best as int].subtotal_amount,
        decreases lines@.len() - i,
    {
        if lines[i].subtotal_amount > lines[best].subtotal_amount {
            best = i;
        }
        i = i + 1;
    }
    Some(best)
}

/// Whether `classes` holds `class`.
pub fn has_class(classes: &Vec<DiscountClass>, class: DiscountClass) -> (r: bool)
    ensures
        r == classes@.contains(class),
{
    let mut i: usize = 0;
    while i < classes.len()
        invariant
            i <= classes@.len(),
            forall|j: int| 0 <= j < i ==> classes@[j] != class,
        decreases classes@.len() - i,
    {
        if classes[i] == class {
            assert(classes@[i as int] == class);
            return true;
        }
        i = i + 1;
    }
    false
}

/// The percentage configured by the metafield, or ten where there is none
/// or its text does not parse.
pub fn discount_percentage(metafield: &Option<String>) -> (r: Decimal)
    ensures
        r == base_percentage(*metafield),
        is_canonical(r),
        r.mantissa < pow10(MAX_DIGITS as nat),
{
    proof {
        crate::decimal::lemma_pow10_values();
    }
    match metafield {
        Some(v) => match parse_decimal(v.as_str()) {
            Some(d) => d,
            None => ten(),
        },
        None => ten(),
    }
}

fn order_discount(p: Decimal) -> (r: CartOperation)
    requires
        is_canonical(p),
    ensures
        is_order_discount(r, p),
{
    let mut message = p.to_text();
    message.append("% OFF ORDER");
    let target = OrderDiscountCandidateTarget::OrderSubtotal(
        OrderSubtotalTarget { excluded_cart_line_ids: Vec::new() },
    );
    let candidate = OrderDiscountCandidate {
        targets: vec![target],
        message: Some(message),
        value: OrderDiscountCandidateValue::Percentage(Percentage { value: p }),
    };
    CartOperation::OrderDiscountsAdd(
        OrderDiscountsAddOperation {
            selection_strategy: OrderDiscountSelectionStrategy::First,
            candidates: vec![candidate],
        },
    )
}

fn product_discount(line: &CartLine, p: Decimal) -> (r: CartOperation)
    requires
        is_canonical(p),
    ensures
        is_product_discount(r, line.id@, p),
{
    let mut message = p.to_text();
    message.append("% OFF PRODUCT");
    let target = ProductDiscountCandidateTarget::CartLine(
        CartLineTarget { id: line.id.clone(), quantity: None },
    );
    let candidate = ProductDiscountCandidate {
        targets: vec![target],
        message: Some(message),
        value: ProductDiscountCandidateValue::Percentage(Percentage { value: p }),
    };
    CartOperation::ProductDiscountsAdd(
        ProductDiscountsAddOperation {
            selection_strategy: ProductDiscountSelectionStrategy::First,
            candidates: vec![candidate],
        },
    )
}

/// Runs the discount on a cart. An empty cart is an error; otherwise the
/// operations are those of `operations_meet`.
pub fn cart_lines_discounts_generate_run(input: &Input) -> (r: Result<
    CartLinesDiscountsGenerateRunResult,
    RunError,
>)
    ensures
        r is Err <==> input.lines@.len() == 0,
        r matches Err(e) ==> e == RunError::NoCartLines,
        r matches Ok(res) ==> operations_meet(
            res.operations@,
            input.lines@,
            input.discount_classes@,
            input.metafield,
        ),
{
    let best = match max_subtotal_line(&input.lines) {
        Some(i) => i,
        None => return Err(RunError::NoCartLines),
    };
    proof {
        let k = choose|k: int| is_first_max(input.lines@, k);
        lemma_first_max_unique(input.lines@, best as int, k);
    }
    let order = has_class(&input.discount_classes, DiscountClass::Order);
    let product = has_class(&input.discount_classes, DiscountClass::Product);
    if !order && !product {
        return Ok(CartLinesDiscountsGenerateRunResult { operations: Vec::new() });
    }
    let mut operations: Vec<CartOperation> = Vec::new();
    let p = discount_percentage(&input.metafield);
    if order {
        operations.push(order_discount(p));
    }
    if product {
        let p2 = double(p);
        operations.push(product_discount(&input.lines[best], p2));
    }
    Ok(CartLinesDiscountsGenerateRunResult { operations })
}

} // verus!
