use javy_marshal::random::{HostCall, Random, LOG_BASE_OFFSET};
use javy_marshal::reference::{MarshalError, Reference};
use rquickjs::context::EvalOptions;
use rquickjs::prelude::Func;
use rquickjs::{Context, Ctx, Function, Object, Runtime, Value};
use std::cell::RefCell;
use std::rc::Rc;

/// What a host would hold: the shared memory and the calls it received.
struct Host {
    memory: Vec<u8>,
    calls: Vec<HostCall>,
}

fn register<'js>(cx: Ctx<'js>, host: Rc<RefCell<Host>>) -> rquickjs::Result<()> {
    let globals = cx.globals();
    let math: Object<'_> = globals.get("Math")?;
    math.set("random", Func::from(fastrand::f64))?;
    globals.set(
        "javy_logger",
        Function::new(cx.clone(), move |level: String, message: String| {
            let mut host = host.borrow_mut();
            let call = Random::javy_logger(&mut host.memory, &level, &message).unwrap();
            host.calls.push(call);
        })?,
    )?;
    Ok(())
}

fn new_host(size: usize) -> Rc<RefCell<Host>> {
    Rc::new(RefCell::new(Host { memory: vec![0u8; size], calls: Vec::new() }))
}

#[test]
fn test_random() {
    let runtime = Runtime::new().unwrap();
    let context = Context::full(&runtime).unwrap();
    context.with(|this| {
        register(this.clone(), new_host(64)).unwrap();
        let mut eval_opts = EvalOptions::default();
        eval_opts.strict = false;
        this.eval_with_options::<(), _>("result = Math.random()", eval_opts).unwrap();
        let result: f64 = this
            .globals()
            .get::<&str, Value<'_>>("result")
            .unwrap()
            .as_float()
            .unwrap();
        assert!(result >= 0.0);
        assert!(result < 1.0);
    });
}

#[test]
fn logger_called_from_a_script_reaches_the_host_once() {
    let host = new_host(32);
    let runtime = Runtime::new().unwrap();
    let context = Context::full(&runtime).unwrap();
    context.with(|this| {
        register(this.clone(), host.clone()).unwrap();
        this.eval::<(), _>("javy_logger('warn', 'disk low')").unwrap();
    });
    let host = host.borrow();
    assert_eq!(host.calls.len(), 1);
    let level = Reference::decode(host.calls[0].level);
    let message = Reference::decode(host.calls[0].message);
    assert_eq!(level, Reference { typ: 5, offset: 1, size: 4 });
    assert_eq!(message, Reference { typ: 5, offset: 5, size: 8 });
    assert_eq!(&host.memory[1..13], b"warndisk low");
}

#[test]
fn log_base_offset_is_one() {
    assert_eq!(LOG_BASE_OFFSET, 1);
}

#[test]
fn logger_writes_level_then_message() {
    let mut memory = vec![0u8; 16];
    let call = Random::javy_logger(&mut memory, "warn", "disk low").unwrap();
    let level = Reference::decode(call.level);
    let message = Reference::decode(call.message);
    assert_eq!(level.typ, 5);
    assert_eq!(level.offset, 1);
    assert_eq!(level.size, 4);
    assert_eq!(message.typ, 5);
    assert_eq!(message.offset, 5);
    assert_eq!(message.size, 8);
    assert_eq!(call, HostCall { level: 0x5000_0000_1000_0004, message: 0x5000_0000_5000_0008 });
    assert_eq!(memory[0], 0);
    assert_eq!(&memory[1..5], b"warn");
    assert_eq!(&memory[5..13], b"disk low");
    assert_eq!(&memory[13..], &[0u8; 3]);
}

#[test]
fn logger_with_empty_strings_writes_nothing() {
    let mut memory = vec![1u8; 2];
    let call = Random::javy_logger(&mut memory, "", "").unwrap();
    assert_eq!(Reference::decode(call.level), Reference { typ: 5, offset: 1, size: 0 });
    assert_eq!(Reference::decode(call.message), Reference { typ: 5, offset: 1, size: 0 });
    assert_eq!(memory, vec![1u8; 2]);
}

#[test]
fn logger_refuses_a_level_that_does_not_fit() {
    let mut memory = vec![2u8; 4];
    let res = Random::javy_logger(&mut memory, "warn", "");
    assert_eq!(res, Err(MarshalError::OutOfBounds));
    assert_eq!(memory, vec![2u8; 4]);
}

#[test]
fn logger_keeps_the_level_where_the_message_does_not_fit() {
    let mut memory = vec![0u8; 8];
    let res = Random::javy_logger(&mut memory, "warn", "disk low");
    assert_eq!(res, Err(MarshalError::OutOfBounds));
    assert_eq!(memory, b"\0warn\0\0\0".to_vec());
}
