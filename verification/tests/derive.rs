use godot_bevy_ecs_demo::output::Present;
use godot_bevy_ecs_demo::present_order::{
    check_output_shape, DuplicateOrder, OrderAttributeError, OrderAttributeParser, OutputShape,
    OutputShapeError, PresentOrderPlan,
};

#[derive(Default)]
struct Log(Vec<&'static str>);

struct First;
struct Middle;
struct Last;

impl Present<Log> for First {
    fn present(&mut self, context: &mut Log) {
        context.0.push("first");
    }
}

impl Present<Log> for Middle {
    fn present(&mut self, context: &mut Log) {
        context.0.push("middle");
    }
}

impl Present<Log> for Last {
    fn present(&mut self, context: &mut Log) {
        context.0.push("last");
    }
}

// Physical field order deliberately differs from the application order:
// last declares 90, first 10, middle 40.
struct Output {
    last: Last,
    first: First,
    middle: Middle,
}

impl Present<Log> for Output {
    fn present(&mut self, context: &mut Log) {
        let mut plan = PresentOrderPlan::new();
        plan.add_field(90).unwrap();
        plan.add_field(10).unwrap();
        plan.add_field(40).unwrap();
        for position in plan.application_order() {
            match position {
                0 => self.last.present(context),
                1 => self.first.present(context),
                2 => self.middle.present(context),
                _ => unreachable!(),
            }
        }
    }
}

#[test]
fn presents_fields_in_attribute_order_and_can_be_reused() {
    let mut output = Output {
        last: Last,
        first: First,
        middle: Middle,
    };
    let mut log = Log::default();

    output.present(&mut log);
    output.present(&mut log);

    assert_eq!(
        log.0,
        ["first", "middle", "last", "first", "middle", "last"]
    );
}

#[test]
fn application_order_sorts_positions_by_declared_order() {
    let mut plan = PresentOrderPlan::new();
    assert_eq!(plan.add_field(90), Ok(0));
    assert_eq!(plan.add_field(10), Ok(1));
    assert_eq!(plan.add_field(40), Ok(2));
    assert_eq!(plan.application_order(), vec![1, 2, 0]);
}

#[test]
fn application_order_ignores_declaration_order() {
    let mut a = PresentOrderPlan::new();
    for order in [20u32, 90, 10] {
        a.add_field(order).unwrap();
    }
    let mut b = PresentOrderPlan::new();
    for order in [90u32, 10, 20] {
        b.add_field(order).unwrap();
    }
    let orders_a = [20u32, 90, 10];
    let orders_b = [90u32, 10, 20];
    let applied_a: Vec<u32> = a.application_order().iter().map(|p| orders_a[*p]).collect();
    let applied_b: Vec<u32> = b.application_order().iter().map(|p| orders_b[*p]).collect();
    assert_eq!(applied_a, vec![10, 20, 90]);
    assert_eq!(applied_a, applied_b);
}

#[test]
fn empty_plan_has_empty_application_order() {
    let plan = PresentOrderPlan::new();
    assert!(plan.application_order().is_empty());
}

#[test]
fn duplicate_order_is_refused_with_first_field() {
    let mut plan = PresentOrderPlan::new();
    plan.add_field(10).unwrap();
    plan.add_field(20).unwrap();
    assert_eq!(
        plan.add_field(10),
        Err(DuplicateOrder { order: 10, previous: 0 })
    );
    // The refused field is not added.
    assert_eq!(plan.application_order(), vec![0, 1]);
}

#[test]
fn field_without_present_attribute_is_refused() {
    let parser = OrderAttributeParser::new();
    assert_eq!(parser.finish(), Err(OrderAttributeError::MissingAttribute));
}

#[test]
fn present_attribute_without_order_is_refused() {
    let mut parser = OrderAttributeParser::new();
    parser.begin_attribute();
    assert_eq!(parser.finish(), Err(OrderAttributeError::MissingOrder));
}

#[test]
fn unknown_key_is_refused() {
    let mut parser = OrderAttributeParser::new();
    parser.begin_attribute();
    assert_eq!(parser.accept_key(false), Err(OrderAttributeError::UnknownKey));
}

#[test]
fn repeated_order_is_refused() {
    let mut parser = OrderAttributeParser::new();
    parser.begin_attribute();
    assert_eq!(parser.accept_key(true), Ok(()));
    parser.record_order(10);
    parser.begin_attribute();
    assert_eq!(parser.accept_key(true), Err(OrderAttributeError::RepeatedOrder));
}

#[test]
fn order_is_read_from_attribute() {
    let mut parser = OrderAttributeParser::new();
    parser.begin_attribute();
    assert_eq!(parser.accept_key(true), Ok(()));
    parser.record_order(40);
    assert_eq!(parser.finish(), Ok(40));
}

#[test]
fn only_structs_with_named_fields_are_composed() {
    assert_eq!(check_output_shape(OutputShape::StructWithNamedFields), Ok(()));
    assert_eq!(
        check_output_shape(OutputShape::StructWithoutNamedFields),
        Err(OutputShapeError::UnnamedFields)
    );
    assert_eq!(
        check_output_shape(OutputShape::NotAStruct),
        Err(OutputShapeError::NotAStruct)
    );
}

#[test]
fn refusals_have_their_diagnostics() {
    assert_eq!(
        OutputShapeError::UnnamedFields.message(),
        "PresentOutput exige uma struct com campos nomeados"
    );
    assert_eq!(
        OutputShapeError::NotAStruct.message(),
        "PresentOutput só pode ser derivado para structs"
    );
    assert_eq!(
        OrderAttributeError::UnknownKey.message(),
        "atributo desconhecido; use somente `order = N`"
    );
    assert_eq!(
        OrderAttributeError::RepeatedOrder.message(),
        "`order` foi informado mais de uma vez"
    );
    assert_eq!(
        OrderAttributeError::MissingAttribute.message(),
        "campo sem `#[present(order = N)]`"
    );
    assert_eq!(
        OrderAttributeError::MissingOrder.message(),
        "atributo `present` precisa declarar `order = N`"
    );
}
