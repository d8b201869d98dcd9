//! Tests for the fixed-capacity containers.

use std::sync::Arc;

use beamline::fixed_buffer::Error as FixedBufferError;
use beamline::fixed_buffer::FixedBuffer;
use beamline::stack::Error as StackError;
use beamline::stack::Stack;

#[test]
fn test_new() {
    let buffer = FixedBuffer::<u32, 10>::new();
    assert_eq!(buffer.length(), 0);
}

#[test]
fn test_append() {
    let mut buffer = FixedBuffer::<u32, 3>::new();

    let r1 = buffer.append(10);
    assert_eq!(r1, Ok(()));
    assert_eq!(buffer.length(), 1);

    let r2 = buffer.append(66);
    assert_eq!(r2, Ok(()));
    assert_eq!(buffer.length(), 2);

    let r3 = buffer.append(42);
    assert_eq!(r3, Ok(()));
    assert_eq!(buffer.length(), 3);

    let r4 = buffer.append(100);
    assert_eq!(r4, Err(FixedBufferError::BufferFull));
    assert_eq!(buffer.length(), 3);

    assert_eq!(10, *buffer.index(0));
    assert_eq!(66, *buffer.index(1));
    assert_eq!(42, *buffer.index(2));
}

#[test]
fn test_clear() {
    let mut buffer = FixedBuffer::<u32, 3>::new();
    assert_eq!(0, buffer.length());
    buffer.clear();
    assert_eq!(0, buffer.length());

    _ = buffer.append(10);
    _ = buffer.append(2);
    assert_eq!(2, buffer.length());
    assert_eq!(10, *buffer.index(0));
    assert_eq!(2, *buffer.index(1));

    buffer.clear();
    assert_eq!(0, buffer.length());

    _ = buffer.append(42);
    _ = buffer.append(54);
    assert_eq!(2, buffer.length());
    assert_eq!(42, *buffer.index(0));
    assert_eq!(54, *buffer.index(1));
}

#[test]
fn test_clear_drops_properly() {
    let mut buffer = FixedBuffer::<Arc<u32>, 3>::new();
    assert_eq!(0, buffer.length());

    let value: Arc<u32> = Arc::new(42);
    assert_eq!(1, Arc::strong_count(&value));

    _ = buffer.append(value.clone());
    assert_eq!(2, Arc::strong_count(&value));
    assert_eq!(1, buffer.length());

    buffer.clear();
    assert_eq!(0, buffer.length());
    assert_eq!(1, Arc::strong_count(&value));
}

#[test]
fn test_bytes() {
    let mut buffer = FixedBuffer::<u32, 3>::new();
    _ = buffer.append(10);
    _ = buffer.append(42);

    let expected: [u8; 8] = [10, 0, 0, 0, 42, 0, 0, 0];
    let bytes = buffer.bytes();
    assert_eq!(bytes, expected);
}

#[test]
fn stack_example() {
    let mut stack = Stack::<u32, 3>::new();
    assert_eq!(stack.len(), 0);
    assert_eq!(stack.deref(), &[][..]);

    let r1 = stack.push(42);
    assert_eq!(r1, Ok(()));
    assert_eq!(stack.len(), 1);
    assert_eq!(stack.deref(), &[42][..]);

    let r2 = stack.push(10);
    assert_eq!(r2, Ok(()));
    assert_eq!(stack.len(), 2);
    assert_eq!(stack.deref(), &[42, 10][..]);

    let r3 = stack.push(7);
    assert_eq!(r3, Ok(()));
    assert_eq!(stack.len(), 3);
    assert_eq!(stack.deref(), &[42, 10, 7][..]);

    let r4 = stack.push(3);
    assert_eq!(r4, Err(StackError::CapacityExceeded));
    assert_eq!(stack.len(), 3);
    assert_eq!(stack.deref(), &[42, 10, 7][..]);

    let p1 = stack.pop();
    assert_eq!(p1, Some(7));
    assert_eq!(stack.len(), 2);
    assert_eq!(stack.deref(), &[42, 10][..]);

    let p2 = stack.pop();
    assert_eq!(p2, Some(10));
    assert_eq!(stack.len(), 1);
    assert_eq!(stack.deref(), &[42][..]);

    stack.clear();
    assert_eq!(stack.len(), 0);

    let r5 = stack.push(100);
    assert_eq!(r5, Ok(()));
    assert_eq!(stack.len(), 1);
    assert_eq!(stack.deref(), &[100][..]);
}

#[test]
fn fixed_buffer_bytes_empty() {
    let buffer = FixedBuffer::<u32, 4>::new();
    assert_eq!(buffer.bytes(), Vec::<u8>::new());
}

#[test]
fn fixed_buffer_bytes_least_significant_first() {
    let mut buffer = FixedBuffer::<u32, 2>::new();
    _ = buffer.append(0x0102_0304);
    assert_eq!(buffer.bytes(), [4, 3, 2, 1]);
}

#[test]
fn stack_pop_empty() {
    let mut stack = Stack::<u32, 2>::new();
    assert_eq!(stack.pop(), None);
}
