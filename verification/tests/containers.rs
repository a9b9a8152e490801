use karma::deque::Deque;
use karma::failure::Failure;
use karma::stack::Stack;

#[test]
fn stack_returns_values_in_reverse_order() {
    let mut stack = Stack::new();
    for value in [3, 1, 4, 1, 5, 9, 2, 6] {
        stack.push(value);
    }
    let mut popped = Vec::new();
    for _ in 0..8 {
        popped.push(stack.pop().unwrap());
    }
    assert_eq!(popped, vec![6, 2, 9, 5, 1, 4, 1, 3]);
    assert_eq!(stack.len(), 0);
}

#[test]
fn stack_first_push_allocates_one_cell() {
    let mut stack = Stack::new();
    assert_eq!(stack.capacity(), 0);
    stack.push(7);
    assert_eq!(stack.capacity(), 1);
    assert_eq!(stack.len(), 1);
    stack.push(8);
    assert_eq!(stack.capacity(), 2);
    stack.push(9);
    assert_eq!(stack.capacity(), 4);
    assert_eq!(stack.pop(), Ok(9));
    assert_eq!(stack.pop(), Ok(8));
    assert_eq!(stack.pop(), Ok(7));
}

#[test]
fn stack_growth_keeps_earlier_values() {
    for k in 0..10u32 {
        let count = (1i64 << k) + 1;
        let mut stack = Stack::new();
        for value in 0..count {
            stack.push(value * 3 - 7);
        }
        assert_eq!(stack.len() as i64, count);
        for value in (0..count).rev() {
            assert_eq!(stack.pop(), Ok(value * 3 - 7));
        }
        assert_eq!(stack.pop(), Err(Failure::StackUnderflow));
    }
}

#[test]
fn stack_resize_keeps_values_and_sets_capacity() {
    let mut stack = Stack::new();
    stack.resize(16);
    assert_eq!(stack.capacity(), 16);
    stack.push(1);
    stack.push(2);
    stack.resize(40);
    assert_eq!(stack.capacity(), 40);
    assert_eq!(stack.len(), 2);
    assert_eq!(stack.pop(), Ok(2));
    assert_eq!(stack.pop(), Ok(1));
}

#[test]
fn stack_pop_on_empty_stack_is_underflow() {
    let mut stack = Stack::new();
    assert_eq!(stack.pop(), Err(Failure::StackUnderflow));
    stack.push(1);
    assert_eq!(stack.pop(), Ok(1));
    assert_eq!(stack.pop(), Err(Failure::StackUnderflow));
    assert_eq!(stack.len(), 0);
}

#[test]
fn deque_order() {
    let (a, b, c) = (10, 20, 30);
    let mut deque = Deque::new();
    deque.insert_front(a);
    deque.insert_back(b);
    deque.insert_front(c);
    assert_eq!(deque.remove_back(), Ok(b));
    assert_eq!(deque.remove_front(), Ok(c));
    assert_eq!(deque.remove_front(), Ok(a));
    assert_eq!(deque.len(), 0);
}

#[test]
fn deque_starts_with_one_cell_and_doubles() {
    let mut deque = Deque::new();
    assert_eq!(deque.capacity(), 1);
    deque.insert_front(1);
    assert_eq!(deque.capacity(), 1);
    deque.insert_front(2);
    assert_eq!(deque.capacity(), 2);
    deque.insert_back(3);
    assert_eq!(deque.capacity(), 4);
    assert_eq!(deque.len(), 3);
}

#[test]
fn deque_without_cells_grows_to_one() {
    let mut deque = Deque::with_capacity(0);
    assert_eq!(deque.capacity(), 0);
    deque.insert_back(5);
    assert_eq!(deque.capacity(), 1);
    assert_eq!(deque.remove_front(), Ok(5));
}

#[test]
fn deque_underflow_at_both_ends() {
    let mut deque = Deque::new();
    assert_eq!(deque.remove_front(), Err(Failure::DequeUnderflow));
    assert_eq!(deque.remove_back(), Err(Failure::DequeUnderflow));
    deque.insert_back(4);
    assert_eq!(deque.remove_back(), Ok(4));
    assert_eq!(deque.remove_back(), Err(Failure::DequeUnderflow));
    assert_eq!(deque.remove_front(), Err(Failure::DequeUnderflow));
}

#[test]
fn failures_have_distinct_nonzero_statuses() {
    assert_eq!(Failure::DequeUnderflow.status(), 13);
    assert_eq!(Failure::StackUnderflow.status(), 14);
    let all = [
        Failure::Panic,
        Failure::DequeUnderflow,
        Failure::StackUnderflow,
        Failure::EndOfInput,
        Failure::DivisionByZero,
        Failure::OutOfMemory,
    ];
    for (i, first) in all.iter().enumerate() {
        assert_ne!(first.status(), 0);
        for second in all.iter().skip(i + 1) {
            assert_ne!(first.status(), second.status());
        }
    }
}

/// Fills a deque of `capacity` cells so that the values in use straddle the
/// end of the buffer, then returns it with the values it holds, back first.
fn wrapped_deque(capacity: usize, rotation: usize) -> (Deque, Vec<i64>) {
    let mut deque = Deque::with_capacity(capacity);
    for _ in 0..rotation {
        deque.insert_front(-1);
        assert_eq!(deque.remove_back(), Ok(-1));
    }
    let mut values = Vec::new();
    for i in 0..capacity {
        let value = 100 + i as i64;
        deque.insert_front(value);
        values.push(value);
    }
    assert_eq!(deque.capacity(), capacity);
    assert_eq!(deque.back(), rotation % capacity);
    (deque, values)
}

#[test]
fn deque_resize_under_wraparound_from_the_back() {
    for capacity in 1..9usize {
        for rotation in 0..capacity {
            let (mut deque, mut values) = wrapped_deque(capacity, rotation);
            deque.insert_front(999);
            values.push(999);
            assert_eq!(deque.capacity(), 2 * capacity);
            assert_eq!(deque.back(), 2 * capacity - (capacity - rotation));
            for value in values {
                assert_eq!(deque.remove_back(), Ok(value));
            }
            assert_eq!(deque.remove_back(), Err(Failure::DequeUnderflow));
        }
    }
}

#[test]
fn deque_resize_under_wraparound_from_the_front() {
    for capacity in 1..9usize {
        for rotation in 0..capacity {
            let (mut deque, mut values) = wrapped_deque(capacity, rotation);
            deque.insert_back(-5);
            values.insert(0, -5);
            assert_eq!(deque.capacity(), 2 * capacity);
            for value in values.into_iter().rev() {
                assert_eq!(deque.remove_front(), Ok(value));
            }
            assert_eq!(deque.remove_front(), Err(Failure::DequeUnderflow));
        }
    }
}

#[test]
fn deque_resize_under_wraparound_from_both_ends() {
    let (mut deque, values) = wrapped_deque(6, 4);
    deque.insert_front(7);
    assert_eq!(deque.remove_back(), Ok(values[0]));
    assert_eq!(deque.remove_front(), Ok(7));
    assert_eq!(deque.remove_back(), Ok(values[1]));
    assert_eq!(deque.remove_front(), Ok(values[5]));
    assert_eq!(deque.remove_front(), Ok(values[4]));
    assert_eq!(deque.remove_back(), Ok(values[2]));
    assert_eq!(deque.remove_back(), Ok(values[3]));
    assert_eq!(deque.len(), 0);
}

#[test]
fn deque_resize_of_values_that_do_not_wrap_keeps_back() {
    let mut deque = Deque::with_capacity(8);
    for _ in 0..3 {
        deque.insert_front(0);
        assert_eq!(deque.remove_back(), Ok(0));
    }
    deque.insert_front(11);
    deque.insert_front(12);
    assert_eq!(deque.back(), 3);
    assert_eq!(deque.front(), 5);
    deque.resize(20);
    assert_eq!(deque.capacity(), 20);
    assert_eq!(deque.back(), 3);
    assert_eq!(deque.front(), 5);
    assert_eq!(deque.remove_back(), Ok(11));
    assert_eq!(deque.remove_back(), Ok(12));
}

#[test]
fn deque_resize_of_wrapped_values_moves_the_tail_to_the_end() {
    let mut deque = Deque::with_capacity(4);
    deque.insert_back(1);
    deque.insert_back(2);
    deque.insert_front(3);
    assert_eq!(deque.back(), 2);
    assert_eq!(deque.front(), 1);
    deque.resize(10);
    assert_eq!(deque.capacity(), 10);
    assert_eq!(deque.back(), 8);
    assert_eq!(deque.front(), 1);
    assert_eq!(deque.remove_back(), Ok(2));
    assert_eq!(deque.remove_back(), Ok(1));
    assert_eq!(deque.remove_back(), Ok(3));
}

#[test]
fn deque_insert_back_moves_back_down_and_remove_back_moves_it_up() {
    let mut deque = Deque::with_capacity(4);
    deque.insert_back(1);
    assert_eq!(deque.back(), 3);
    deque.insert_back(2);
    assert_eq!(deque.back(), 2);
    assert_eq!(deque.remove_back(), Ok(2));
    assert_eq!(deque.back(), 3);
    assert_eq!(deque.remove_back(), Ok(1));
    assert_eq!(deque.back(), 0);
}

fn stack_cells(stack: &Stack) -> Vec<i64> {
    (0..stack.capacity()).map(|index| stack.cell(index)).collect()
}

fn deque_cells(deque: &Deque) -> Vec<i64> {
    (0..deque.capacity()).map(|index| deque.cell(index)).collect()
}

#[test]
fn stack_cells_keep_popped_values_and_grow_with_zeros() {
    let mut stack = Stack::new();
    assert_eq!(stack_cells(&stack), Vec::<i64>::new());
    stack.push(5);
    stack.push(6);
    stack.push(7);
    assert_eq!(stack_cells(&stack), vec![5, 6, 7, 0]);
    assert_eq!(stack.pop(), Ok(7));
    assert_eq!(stack_cells(&stack), vec![5, 6, 7, 0]);
    stack.resize(6);
    assert_eq!(stack_cells(&stack), vec![5, 6, 7, 0, 0, 0]);
    stack.push(8);
    assert_eq!(stack_cells(&stack), vec![5, 6, 8, 0, 0, 0]);
}

#[test]
fn deque_cells_after_a_resize_of_wrapped_values() {
    let mut deque = Deque::with_capacity(4);
    assert_eq!(deque_cells(&deque), vec![0, 0, 0, 0]);
    deque.insert_back(1);
    deque.insert_back(2);
    deque.insert_front(3);
    assert_eq!(deque_cells(&deque), vec![3, 0, 2, 1]);
    deque.resize(7);
    assert_eq!(deque_cells(&deque), vec![3, 0, 0, 0, 0, 2, 1]);
    assert_eq!(deque.back(), 5);
    deque.insert_front(4);
    assert_eq!(deque_cells(&deque), vec![3, 4, 0, 0, 0, 2, 1]);
    deque.insert_back(5);
    assert_eq!(deque_cells(&deque), vec![3, 4, 0, 0, 5, 2, 1]);
    assert_eq!(deque.remove_front(), Ok(4));
    assert_eq!(deque.remove_back(), Ok(5));
    assert_eq!(deque_cells(&deque), vec![3, 4, 0, 0, 5, 2, 1]);
}

#[test]
fn deque_cells_after_a_resize_of_values_that_do_not_wrap() {
    let mut deque = Deque::with_capacity(4);
    deque.insert_front(9);
    assert_eq!(deque.remove_back(), Ok(9));
    deque.insert_front(1);
    deque.insert_front(2);
    assert_eq!(deque_cells(&deque), vec![9, 1, 2, 0]);
    deque.resize(6);
    assert_eq!(deque_cells(&deque), vec![9, 1, 2, 0, 0, 0]);
    assert_eq!(deque.back(), 1);
}

#[test]
fn deque_cells_after_a_full_deque_has_grown() {
    let mut deque = Deque::with_capacity(2);
    deque.insert_front(1);
    deque.insert_front(2);
    assert_eq!(deque_cells(&deque), vec![1, 2]);
    deque.insert_front(3);
    assert_eq!(deque_cells(&deque), vec![3, 0, 1, 2]);
    assert_eq!(deque.back(), 2);
    assert_eq!(deque.front(), 1);
    assert_eq!(Deque::new().cell(0), 0);
}
