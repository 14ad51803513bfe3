use myps::mips::{MipsParser, Register, StateError};

fn mem(r: Register) -> Register {
    Register::Memory(Box::new(r))
}

fn alias(s: &str) -> Register {
    Register::Alias(s.to_string())
}

#[test]
fn register_memory_base() {
    assert_eq!(Register::new("r0"), Some(mem(alias("r0"))));
    assert_eq!(Register::new("r15"), Some(mem(alias("r15"))));
}

#[test]
fn register_memory_indirect() {
    assert_eq!(Register::new("rr0"), Some(mem(mem(alias("r0")))));
    let seven = Register::new("rrrrrrr8").unwrap();
    let mut r = &seven;
    let mut depth = 0;
    while let Register::Memory(inner) = r {
        depth += 1;
        r = inner;
    }
    assert_eq!(depth, 7);
    assert_eq!(r, &alias("r8"));
}

#[test]
fn register_device() {
    assert_eq!(Register::new("d0"), Some(Register::Device(Box::new(alias("d0")))));
    assert_eq!(
        Register::new("drrr0"),
        Some(Register::Device(Box::new(mem(mem(mem(alias("r0")))))))
    );
}

#[test]
fn register_alias_and_invalid() {
    assert_eq!(MipsParser::register("x"), Some(alias("x")));
    assert_eq!(MipsParser::register("rate"), Some(alias("rate")));
    assert_eq!(MipsParser::register("3x"), None);
    assert_eq!(MipsParser::register(""), None);
    assert_eq!(MipsParser::register("r"), Some(alias("r")));
}

#[test]
fn register_kind_names() {
    assert_eq!(Register::new("d0").unwrap().kind_name(), "Device");
    assert_eq!(Register::new("r0").unwrap().kind_name(), "Memory");
    assert_eq!(alias("x").kind_name(), "Alias");
    let e = StateError::InvalidRegister(Register::new("drrr0").unwrap());
    assert!(matches!(e, StateError::InvalidRegister(Register::Device(_))));
}
