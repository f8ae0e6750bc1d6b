use blasphemy::channel::CommandQueue;

#[test]
fn commands_are_dequeued_one_per_tick_in_order() {
    let mut q = CommandQueue::new();
    q.send(('A', 'Z'));
    q.send(('B', 'Y'));
    q.send(('C', 'X'));
    // Three ticks drain exactly the three commands, oldest first.
    assert_eq!(q.try_receive(), Some(('A', 'Z')));
    assert_eq!(q.try_receive(), Some(('B', 'Y')));
    assert_eq!(q.try_receive(), Some(('C', 'X')));
    // None were lost and none duplicated: the queue is now empty.
    assert_eq!(q.try_receive(), None);
}

#[test]
fn empty_queue_answers_none_without_blocking() {
    let mut q = CommandQueue::new();
    assert_eq!(q.try_receive(), None);
    q.send(('A', 'B'));
    assert_eq!(q.try_receive(), Some(('A', 'B')));
    assert_eq!(q.try_receive(), None);
}
