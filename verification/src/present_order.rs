//! Planning of the `#[present(order = N)]` composition: which presentation
//! domain of an output is applied first.
//!
//! Reading the tokens of a field attribute is the compiler front end's work;
//! the decisions taken on what was read (which key is accepted, when an
//! order is missing or repeated, and the final application order) are here.

use std::collections::HashMap;
use vstd::prelude::*;

verus! {

broadcast use vstd::std_specs::hash::group_hash_axioms;

/// Why the `present` attribute of a field is refused.
#[derive(Clone, Copy, Debug, PartialEq, Eq, Structural)]
pub enum OrderAttributeError {
    /// A key other than `order` was given.
    UnknownKey,
    /// `order` was given more than once for the field.
    RepeatedOrder,
    /// The field has no `present` attribute.
    MissingAttribute,
    /// The field has `present` attributes, but none declares `order`.
    MissingOrder,
}

impl OrderAttributeError {
    /// The diagnostic shown for the refusal.
    pub fn message(&self) -> (text: &'static str)
        ensures
            text@ == match self {
                OrderAttributeError::UnknownKey => "atributo desconhecido; use somente `order = N`"@,
                OrderAttributeError::RepeatedOrder => "`order` foi informado mais de uma vez"@,
                OrderAttributeError::MissingAttribute => "campo sem `#[present(order = N)]`"@,
                OrderAttributeError::MissingOrder => "atributo `present` precisa declarar `order = N`"@,
            },
    {
        match self {
            OrderAttributeError::UnknownKey => "atributo desconhecido; use somente `order = N`",
            OrderAttributeError::RepeatedOrder => "`order` foi informado mais de uma vez",
            OrderAttributeError::MissingAttribute => "campo sem `#[present(order = N)]`",
            OrderAttributeError::MissingOrder => "atributo `present` precisa declarar `order = N`",
        }
    }
}

/// The shape of the item the composition is derived for.
#[derive(Clone, Copy, Debug, PartialEq, Eq, Structural)]
pub enum OutputShape {
    /// A struct whose fields have names.
    StructWithNamedFields,
    /// A tuple or unit struct.
    StructWithoutNamedFields,
    /// An enum or a union.
    NotAStruct,
}

/// Why an item cannot have a presenter composition.
#[derive(Clone, Copy, Debug, PartialEq, Eq, Structural)]
pub enum OutputShapeError {
    /// The struct's fields have no names to carry `present` attributes.
    UnnamedFields,
    /// Only structs can be composed.
    NotAStruct,
}

impl OutputShapeError {
    /// The diagnostic shown for the refusal.
    pub fn message(&self) -> (text: &'static str)
        ensures
            text@ == match self {
                OutputShapeError::UnnamedFields => "PresentOutput exige uma struct com campos nomeados"@,
                OutputShapeError::NotAStruct => "PresentOutput só pode ser derivado para structs"@,
            },
    {
        match self {
            OutputShapeError::UnnamedFields => "PresentOutput exige uma struct com campos nomeados",
            OutputShapeError::NotAStruct => "PresentOutput só pode ser derivado para structs",
        }
    }
}

/// Only a struct with named fields can have a presenter composition.
pub fn check_output_shape(shape: OutputShape) -> (verdict: Result<(), OutputShapeError>)
    ensures
        verdict == match shape {
            OutputShape::StructWithNamedFields => Ok(()),
            OutputShape::StructWithoutNamedFields => Err(OutputShapeError::UnnamedFields),
            OutputShape::NotAStruct => Err(OutputShapeError::NotAStruct),
        },
{
    match shape {
        OutputShape::StructWithNamedFields => Ok(()),
        OutputShape::StructWithoutNamedFields => Err(OutputShapeError::UnnamedFields),
        OutputShape::NotAStruct => Err(OutputShapeError::NotAStruct),
    }
}

/// Reads the `present` attributes of one field, one key at a time.
pub struct OrderAttributeParser {
    found_attribute: bool,
    order: Option<u32>,
}

impl OrderAttributeParser {
    /// Whether a `present` attribute was seen.
    pub closed spec fn seen_attribute(&self) -> bool {
        self.found_attribute
    }

    /// The order read so far.
    pub closed spec fn order_read(&self) -> Option<u32> {
        self.order
    }

    /// A parser that has seen nothing yet.
    pub fn new() -> (parser: Self)
        ensures
            !parser.seen_attribute(),
            parser.order_read() is None,
    {
        OrderAttributeParser { found_attribute: false, order: None }
    }

    /// Notes that a `present` attribute of the field is being read.
    pub fn begin_attribute(&mut self)
        ensures
            final(self).seen_attribute(),
            final(self).order_read() == old(self).order_read(),
    {
        self.found_attribute = true;
    }

    /// Decides on a key of the attribute: only `order` is accepted, and only once.
    pub fn accept_key(&self, key_is_order: bool) -> (verdict: Result<(), OrderAttributeError>)
        ensures
            verdict == (if !key_is_order {
                Err(OrderAttributeError::UnknownKey)
            } else if self.order_read() is Some {
                Err(OrderAttributeError::RepeatedOrder)
            } else {
                Ok(())
            }),
    {
        if !key_is_order {
            return Err(OrderAttributeError::UnknownKey);
        }
        if self.order.is_some() {
            return Err(OrderAttributeError::RepeatedOrder);
        }
        Ok(())
    }

    /// Records the value given to `order`.
    pub fn record_order(&mut self, order: u32)
        ensures
            final(self).seen_attribute() == old(self).seen_attribute(),
            final(self).order_read() == Some(order),
    {
        self.order = Some(order);
    }

    /// The order of the field, once all its attributes were read.
    pub fn finish(&self) -> (result: Result<u32, OrderAttributeError>)
        ensures
            result == (if !self.seen_attribute() {
                Err(OrderAttributeError::MissingAttribute)
            } else {
                match self.order_read() {
                    Some(order) => Ok(order),
                    None => Err(OrderAttributeError::MissingOrder),
                }
            }),
    {
        if !self.found_attribute {
            return Err(OrderAttributeError::MissingAttribute);
        }
        match self.order {
            Some(order) => Ok(order),
            None => Err(OrderAttributeError::MissingOrder),
        }
    }
}

/// Two fields declared the same order; `previous` is the position of the first one.
#[derive(Clone, Copy, Debug, PartialEq, Eq, Structural)]
pub struct DuplicateOrder {
    pub order: u32,
    pub previous: usize,
}

/// No two fields share an order.
pub open spec fn orders_distinct(orders: Seq<u32>) -> bool {
    forall|i: int, j: int| 0 <= i < j < orders.len() ==> orders[i] != orders[j]
}

/// `positions` lists every field position of `orders` once, by increasing order.
pub open spec fn is_application_order(orders: Seq<u32>, positions: Seq<usize>) -> bool {
    &&& orders.len() <= usize::MAX
    &&& positions.len() == orders.len()
    &&& forall|k: int| 0 <= k < positions.len() ==> #[trigger] positions[k] < orders.len()
    &&& forall|k: int, l: int|
        0 <= k < l < positions.len() ==> orders[#[trigger] positions[k] as int]
            < orders[#[trigger] positions[l] as int]
    &&& forall|i: int| 0 <= i < orders.len() ==> #[trigger] positions.contains(i as usize)
}

/// The orders in the sequence their domains are applied, given field positions.
pub open spec fn applied_orders(orders: Seq<u32>, positions: Seq<usize>) -> Seq<u32> {
    positions.map_values(|p: usize| orders[p as int])
}

/// Strictly increasing.
pub open spec fn strictly_increasing(s: Seq<u32>) -> bool {
    forall|k: int, l: int| 0 <= k < l < s.len() ==> s[k] < s[l]
}

/// Two strictly increasing sequences with the same elements are equal.
proof fn lemma_increasing_same_elements_equal(s: Seq<u32>, t: Seq<u32>)
    requires
        strictly_increasing(s),
        strictly_increasing(t),
        s.to_set() == t.to_set(),
    ensures
        s == t,
    decreases s.len(),
{
    if s.len() == 0 {
        if t.len() > 0 {
            assert(t.to_set().contains(t[0]));
        }
        assert(s =~= t);
    } else {
        assert(s.to_set().contains(s[0]));
        assert(t.contains(s[0]));
        assert(t.len() > 0);
        assert(t.to_set().contains(t[0]));
        assert(s.contains(t[0]));
        let a = choose|k: int| 0 <= k < t.len() && t[k] == s[0];
        let b = choose|k: int| 0 <= k < s.len() && s[k] == t[0];
        assert(t[0] <= t[a]);
        assert(s[0] <= s[b]);
        assert(s[0] == t[0]);
        let s1 = s.drop_first();
        let t1 = t.drop_first();
        assert(s1.to_set() =~= t1.to_set()) by {
            assert forall|x: u32| s1.to_set().contains(x) implies t1.to_set().contains(x) by {
                let k = choose|k: int| 0 <= k < s1.len() && s1[k] == x;
                assert(s[k + 1] == x);
                assert(x > s[0]);
                assert(s.to_set().contains(x));
                let m = choose|m: int| 0 <= m < t.len() && t[m] == x;
                assert(m != 0);
                assert(t1[m - 1] == x);
            }
            assert forall|x: u32| t1.to_set().contains(x) implies s1.to_set().contains(x) by {
                let k = choose|k: int| 0 <= k < t1.len() && t1[k] == x;
                assert(t[k + 1] == x);
                assert(x > t[0]);
                assert(t.to_set().contains(x));
                let m = choose|m: int| 0 <= m < s.len() && s[m] == x;
                assert(m != 0);
                assert(s1[m - 1] == x);
            }
        }
        lemma_increasing_same_elements_equal(s1, t1);
        assert(s =~= t) by {
            assert forall|k: int| 0 <= k < s.len() implies s[k] == t[k] by {
                if k > 0 {
                    assert(s1[k - 1] == t1[k - 1]);
                }
            }
        }
    }
}

/// Applying by position order visits exactly the declared orders, increasing.
proof fn lemma_applied_orders_sorted_set(orders: Seq<u32>, positions: Seq<usize>)
    requires
        is_application_order(orders, positions),
    ensures
        strictly_increasing(applied_orders(orders, positions)),
        applied_orders(orders, positions).to_set() == orders.to_set(),
{
    let s = applied_orders(orders, positions);
    assert forall|k: int, l: int| 0 <= k < l < s.len() implies s[k] < s[l] by {
        assert(orders[positions[k] as int] < orders[positions[l] as int]);
    }
    assert forall|x: u32| s.to_set().contains(x) implies orders.to_set().contains(x) by {
        let k = choose|k: int| 0 <= k < s.len() && s[k] == x;
        assert(positions[k] < orders.len());
        assert(orders[positions[k] as int] == x);
    }
    assert forall|x: u32| orders.to_set().contains(x) implies s.to_set().contains(x) by {
        let i = choose|i: int| 0 <= i < orders.len() && orders[i] == x;
        assert(positions.contains(i as usize));
        let k = choose|k: int| 0 <= k < positions.len() && positions[k] == i as usize;
        assert(s[k] == x);
    }
    assert(s.to_set() =~= orders.to_set());
}

/// The application order depends only on the declared orders, not on the
/// order in which the fields are declared: two outputs declaring the same
/// orders, in any field order, apply their domains by the same sequence of
/// orders, which is increasing.
pub proof fn lemma_application_order_ignores_declaration_order(
    first_orders: Seq<u32>,
    first_positions: Seq<usize>,
    second_orders: Seq<u32>,
    second_positions: Seq<usize>,
)
    requires
        first_orders.to_set() == second_orders.to_set(),
        is_application_order(first_orders, first_positions),
        is_application_order(second_orders, second_positions),
    ensures
        applied_orders(first_orders, first_positions) == applied_orders(
            second_orders,
            second_positions,
        ),
        strictly_increasing(applied_orders(first_orders, first_positions)),
{
    lemma_applied_orders_sorted_set(first_orders, first_positions);
    lemma_applied_orders_sorted_set(second_orders, second_positions);
    lemma_increasing_same_elements_equal(
        applied_orders(first_orders, first_positions),
        applied_orders(second_orders, second_positions),
    );
}

/// The fields of an output, by declaration position, with the order each declared.
pub struct PresentOrderPlan {
    orders: Vec<u32>,
    used: HashMap<u32, usize>,
}

impl View for PresentOrderPlan {
    type V = Seq<u32>;

    closed spec fn view(&self) -> Seq<u32> {
        self.orders@
    }
}

impl PresentOrderPlan {
    /// The declared orders are distinct and each is indexed by its field position.
    pub closed spec fn wf(&self) -> bool {
        &&& orders_distinct(self.orders@)
        &&& forall|o: u32| #[trigger]
            self.used@.contains_key(o) <==> self.orders@.contains(o)
        &&& forall|i: int|
            0 <= i < self.orders@.len() ==> self.used@[#[trigger] self.orders@[i]] == i
    }

    /// A plan with no field.
    pub fn new() -> (plan: Self)
        ensures
            plan.wf(),
            plan@ == Seq::<u32>::empty(),
    {
        PresentOrderPlan { orders: Vec::new(), used: HashMap::new() }
    }

    /// Adds the next field with its order; a second field with the same order is refused.
    pub fn add_field(&mut self, order: u32) -> (result: Result<usize, DuplicateOrder>)
        requires
            old(self).wf(),
        ensures
            final(self).wf(),
            old(self)@.contains(order) ==> final(self)@ == old(self)@ && (result matches Err(
                e,
            ) && e.order == order && e.previous < old(self)@.len() && old(self)@[e.previous as int]
                == order),
            !old(self)@.contains(order) ==> final(self)@ == old(self)@.push(order) && result
                == Ok::<usize, DuplicateOrder>(old(self)@.len() as usize),
    {
        match self.used.get(&order) {
            Some(previous) => {
                let previous = *previous;
                proof {
                    let i = choose|i: int| 0 <= i < self.orders@.len() && self.orders@[i] == order;
                    assert(self.used@[self.orders@[i]] == i);
                }
                Err(DuplicateOrder { order, previous })
            },
            None => {
                let position = self.orders.len();
                proof {
                    assert(!self.orders@.contains(order));
                }
                self.orders.push(order);
                self.used.insert(order, position);
                proof {
                    assert forall|o: u32| #[trigger]
                        self.used@.contains_key(o) <==> self.orders@.contains(o) by {
                        if o != order && old(self).orders@.contains(o) {
                            let j = choose|j: int|
                                0 <= j < old(self).orders@.len() && old(self).orders@[j] == o;
                            assert(self.orders@[j] == o);
                        }
                        if self.orders@.contains(o) && o != order {
                            let j = choose|j: int|
                                0 <= j < self.orders@.len() && self.orders@[j] == o;
                            assert(old(self).orders@[j] == o);
                        }
                        if o == order {
                            assert(self.orders@[position as int] == o);
                        }
                    }
                    assert forall|i: int| 0 <= i < self.orders@.len() implies self.used@[
                        #[trigger] self.orders@[i]] == i by {
                        if i < position {
                            assert(old(self).orders@[i] == self.orders@[i]);
                            assert(old(self).orders@.contains(self.orders@[i]));
                        }
                    }
                }
                Ok(position)
            },
        }
    }

    /// Field positions in the order their presenters run: by increasing declared order.
    pub fn application_order(&self) -> (positions: Vec<usize>)
        requires
            self.wf(),
        ensures
            is_application_order(self@, positions@),
    {
        let n = self.orders.len();
        let ghost orders = self.orders@;
        let mut ordered: Vec<usize> = Vec::new();
        let mut i: usize = 0;
        while i < n
            invariant
                n == orders.len(),
                orders == self.orders@,
                orders_distinct(orders),
                i <= n,
                ordered@.len() == i,
                forall|k: int| 0 <= k < ordered@.len() ==> #[trigger] ordered@[k] < i,
                forall|k: int, l: int|
                    0 <= k < l < ordered@.len() ==> orders[#[trigger] ordered@[k] as int]
                        < orders[#[trigger] ordered@[l] as int],
                forall|j: int| 0 <= j < i ==> #[trigger] ordered@.contains(j as usize),
            decreases n - i,
        {
            let key = self.orders[i];
            let mut idx: usize = 0;
            while idx < ordered.len() && self.orders[ordered[idx]] < key
                invariant
                    n == orders.len(),
                    orders == self.orders@,
                    key == orders[i as int],
                    i < n,
                    idx <= ordered@.len(),
                    forall|k: int| 0 <= k < ordered@.len() ==> #[trigger] ordered@[k] < i,
                    forall|k: int| 0 <= k < idx ==> orders[#[trigger] ordered@[k] as int] < key,
                decreases ordered@.len() - idx,
            {
                idx = idx + 1;
            }
            let ghost before = ordered@;
            proof {
                if idx < before.len() {
                    assert(before[idx as int] < i);
                    assert(orders[before[idx as int] as int] != key);
                    assert(orders[before[idx as int] as int] > key);
                }
            }
            ordered.insert(idx, i);
            proof {
                let after = ordered@;
                assert(after.len() == before.len() + 1);
                assert(forall|k: int| 0 <= k < idx ==> after[k] == before[k]);
                assert(after[idx as int] == i);
                assert(forall|k: int| idx < k < after.len() ==> after[k] == before[k - 1]);
                assert forall|k: int, l: int| 0 <= k < l < after.len() implies orders[
                    #[trigger] after[k] as int] < orders[#[trigger] after[l] as int] by {
                    if l < idx {
                        assert(after[k] == before[k] && after[l] == before[l]);
                    } else if l == idx {
                        assert(after[k] == before[k]);
                    } else if k < idx {
                        assert(after[k] == before[k] && after[l] == before[l - 1]);
                        assert(orders[before[idx as int] as int] <= orders[before[l - 1] as int]
                            || idx == l - 1);
                    } else if k == idx {
                        assert(after[l] == before[l - 1]);
                        assert(orders[before[idx as int] as int] <= orders[before[l - 1] as int]
                            || idx == l - 1);
                    } else {
                        assert(after[k] == before[k - 1] && after[l] == before[l - 1]);
                    }
                }
                assert forall|j: int| 0 <= j < i + 1 implies #[trigger] after.contains(
                    j as usize,
                ) by {
                    if j == i {
                        assert(after[idx as int] == j as usize);
                    } else {
                        assert(before.contains(j as usize));
                        let k = choose|k: int| 0 <= k < before.len() && before[k] == j as usize;
                        if k < idx {
                            assert(after[k] == j as usize);
                        } else {
                            assert(after[k + 1] == j as usize);
                        }
                    }
                }
            }
            i = i + 1;
        }
        ordered
    }
}

} // verus!
