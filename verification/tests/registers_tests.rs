use ramemu::registers::RegisterId;
use ramemu::registers::Registers;

#[test]
fn test_set_and_get() {
    let mut registers = Registers::default();

    registers.set(0, 42);
    registers.set(1, 24);

    assert_eq!(registers.get(0), 42);
    assert_eq!(registers.get(1), 24);
}

#[test]
fn test_get_default() {
    let registers = Registers::default();

    assert_eq!(registers.get(2), 0);
}

#[test]
fn test_get_far_index_default() {
    let mut registers = Registers::new();
    registers.set(3, 5);

    assert_eq!(registers.get(1_000_000_007), 0);
}

#[test]
fn test_from_vec() {
    let registers = Registers::from_vec(vec![10, 20, 30]);

    assert_eq!(registers.get(0), 10);
    assert_eq!(registers.get(1), 20);
    assert_eq!(registers.get(2), 30);
    assert_eq!(registers.get(3), 0);
}

#[test]
fn test_overwrite() {
    let mut registers = Registers::new();
    registers.set(7, 1);
    registers.set(7, 2);

    assert_eq!(registers.get(7), 2);
}

#[test]
fn test_register_id_from() {
    assert_eq!(RegisterId::from(3), RegisterId(3));
}
