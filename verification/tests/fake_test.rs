//! The registry builder wired up as a host application would wire it.

use egui_pysync::states_creator::ValuesCreator;
use egui_pysync::values::Value;

struct States {
    value_int64: Value<i64>,
}

impl States {
    pub fn new(c: &mut ValuesCreator) -> Self {
        Self {
            value_int64: c.add_value(0),
        }
    }
}

fn create_values(c: &mut ValuesCreator) {
    c.add_value(0i64);
}

#[test]
fn fake() {
    assert!(true);
}

#[test]
fn registry_assigns_dense_ids() {
    let mut creator = ValuesCreator::new();
    let states = States::new(&mut creator);
    assert_eq!(states.value_int64.id(), 10);
    let second = creator.add_value(5i64);
    assert_eq!(second.id(), 11);
    let dict = creator.add_dict::<i64, i64>();
    assert_eq!(dict.len(), 0);
    let vals = creator.get_values();
    assert_eq!(vals.values, vec![10, 11]);
    assert_eq!(vals.dicts, vec![12]);

    let mut other = ValuesCreator::new();
    create_values(&mut other);
    assert_eq!(other.get_values().values, vec![10]);
}
