use halo2_common::circuit::Value;
use halo2_common::middleware::{Advice, Any, Fixed, Instance};
use halo2_common::plonk::circuit::{Challenge, Column, Selector};
use halo2_common::plonk::{Assigned, Assignment, Error};

#[derive(Debug, Default)]
struct Recorder {
    log: Vec<String>,
}

impl Assignment<u64> for Recorder {
    fn enter_region(&mut self, name: &str) {
        self.log.push(format!("enter {name}"));
    }

    fn annotate_column(&mut self, annotation: &str, column: Column<Any>) {
        self.log.push(format!("annotate {annotation} {}", column.index));
    }

    fn exit_region(&mut self) {
        self.log.push("exit".to_string());
    }

    fn enable_selector(&mut self, _: &str, selector: &Selector, row: usize) -> Result<(), Error> {
        self.log.push(format!("selector {} {row}", selector.0));
        Ok(())
    }

    fn query_instance(&self, _: Column<Instance>, _: usize) -> Result<Value<u64>, Error> {
        Ok(Value::unknown())
    }

    fn assign_advice(
        &mut self,
        _: &str,
        column: Column<Advice>,
        row: usize,
        to: Value<Assigned<u64>>,
    ) -> Result<(), Error> {
        self.log.push(format!("advice {} {row} {:?}", column.index, to.inner));
        Ok(())
    }

    fn assign_fixed(
        &mut self,
        _: &str,
        column: Column<Fixed>,
        row: usize,
        to: Value<Assigned<u64>>,
    ) -> Result<(), Error> {
        self.log.push(format!("fixed {} {row} {:?}", column.index, to.inner));
        Ok(())
    }

    fn copy(
        &mut self,
        left_column: Column<Any>,
        left_row: usize,
        right_column: Column<Any>,
        right_row: usize,
    ) -> Result<(), Error> {
        self.log.push(format!(
            "copy {} {left_row} {} {right_row}",
            left_column.index, right_column.index
        ));
        Ok(())
    }

    fn fill_from_row(
        &mut self,
        column: Column<Fixed>,
        row: usize,
        _: Value<Assigned<u64>>,
    ) -> Result<(), Error> {
        self.log.push(format!("fill {} {row}", column.index));
        Ok(())
    }

    fn get_challenge(&self, _: Challenge) -> Value<u64> {
        Value::unknown()
    }

    fn push_namespace(&mut self, name: &str) {
        self.log.push(format!("push {name}"));
    }

    fn pop_namespace(&mut self, _: Option<String>) {
        self.log.push("pop".to_string());
    }
}

#[test]
fn recorder_keeps_calls_in_order() {
    let mut sink = Recorder::default();
    sink.enter_region("r");
    sink.copy(
        Column { index: 1, column_type: Any::Fixed },
        2,
        Column { index: 3, column_type: Any::Instance },
        4,
    )
    .unwrap();
    sink.exit_region();
    assert_eq!(sink.log, vec!["enter r", "copy 1 2 3 4", "exit"]);
}
