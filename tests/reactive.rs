use ori_core::callback::{Callback, CallbackEmitter, Callbacks, WeakCallback};
use ori_core::resource::Slots;
use ori_core::signal::{OwnedSignal, ReadSignal, Runtime, Signal};

fn count(invoked: &[Callback], callback: Callback) -> usize {
    invoked.iter().filter(|c| **c == callback).count()
}

/// Runs an effect: reads `signal` inside the scope of `effect`.
fn run_effect(callbacks: &mut Callbacks, values: &mut Slots<i32>, effect: Callback, signal: Signal) -> i32 {
    callbacks.enter_scope(effect);
    let value = signal.read().get(callbacks, values);
    callbacks.exit_scope();
    value
}

#[test]
fn set_twice_with_equal_values_runs_effect_twice() {
    let mut rt: Runtime<i32> = Runtime::new();
    let signal = Signal::new_leaking(&mut rt.callbacks, &mut rt.values, 0);
    let effect = Callback::new(&mut rt.callbacks);
    assert_eq!(run_effect(&mut rt.callbacks, &mut rt.values, effect, signal), 0);
    let mut calls = 0;

    signal.set(&mut rt.callbacks, &mut rt.values, 1);
    let invoked = rt.callbacks.take_invoked();
    for c in &invoked {
        if *c == effect {
            calls += 1;
            assert_eq!(run_effect(&mut rt.callbacks, &mut rt.values, effect, signal), 1);
        }
    }

    signal.set(&mut rt.callbacks, &mut rt.values, 1);
    let invoked = rt.callbacks.take_invoked();
    for c in &invoked {
        if *c == effect {
            calls += 1;
            run_effect(&mut rt.callbacks, &mut rt.values, effect, signal);
        }
    }
    assert_eq!(calls, 2);
}

#[test]
fn emit_reaches_each_live_subscriber_once() {
    let mut callbacks = Callbacks::new();
    let emitter = CallbackEmitter::new(&mut callbacks);
    let a = Callback::new(&mut callbacks);
    let b = Callback::new(&mut callbacks);
    let c = Callback::new(&mut callbacks);
    emitter.subscribe(&mut callbacks, &a);
    emitter.subscribe(&mut callbacks, &b);
    emitter.subscribe(&mut callbacks, &b);
    emitter.subscribe(&mut callbacks, &c);
    assert_eq!(emitter.len(&callbacks), 3);
    callbacks.release(c);
    emitter.emit(&mut callbacks);
    let invoked = callbacks.take_invoked();
    assert_eq!(count(&invoked, a), 1);
    assert_eq!(count(&invoked, b), 1);
    assert_eq!(count(&invoked, c), 0);
    assert_eq!(invoked, vec![b, a]);
    assert!(emitter.is_empty(&callbacks));
}

#[test]
fn emit_runs_last_key_first() {
    let mut callbacks = Callbacks::new();
    let emitter = CallbackEmitter::new(&mut callbacks);
    let first = Callback::new(&mut callbacks);
    let second = Callback::new(&mut callbacks);
    let third = Callback::new(&mut callbacks);
    emitter.subscribe(&mut callbacks, &second);
    emitter.subscribe(&mut callbacks, &third);
    emitter.subscribe(&mut callbacks, &first);
    emitter.emit(&mut callbacks);
    assert_eq!(callbacks.take_invoked(), vec![third, second, first]);
}

#[test]
fn unsubscribe_removes_only_that_key() {
    let mut callbacks = Callbacks::new();
    let emitter = CallbackEmitter::new(&mut callbacks);
    let a = Callback::new(&mut callbacks);
    let b = Callback::new(&mut callbacks);
    emitter.subscribe(&mut callbacks, &a);
    emitter.subscribe_weak(&mut callbacks, b.downgrade());
    emitter.unsubscribe(&mut callbacks, a.downgrade().as_ptr());
    emitter.unsubscribe(&mut callbacks, 99);
    assert_eq!(emitter.len(&callbacks), 1);
    emitter.emit(&mut callbacks);
    assert_eq!(callbacks.take_invoked(), vec![b]);
}

#[test]
fn resubscribing_during_emit_waits_for_the_next_emit() {
    let mut callbacks = Callbacks::new();
    let emitter = CallbackEmitter::new(&mut callbacks);
    let a = Callback::new(&mut callbacks);
    emitter.subscribe(&mut callbacks, &a);
    emitter.emit(&mut callbacks);
    let first = callbacks.take_invoked();
    assert_eq!(first, vec![a]);
    // the callback subscribes itself again while it runs
    for c in &first {
        emitter.subscribe(&mut callbacks, c);
    }
    assert!(callbacks.take_invoked().is_empty());
    emitter.emit(&mut callbacks);
    assert_eq!(callbacks.take_invoked(), vec![a]);
}

#[test]
fn weak_callback_follows_owner_count() {
    let mut callbacks = Callbacks::new();
    let a = Callback::new(&mut callbacks);
    let weak = a.downgrade();
    assert_eq!(WeakCallback::new(weak.as_ptr()), weak);
    assert_eq!(weak.upgrade(&callbacks), Some(a));
    callbacks.retain(&a);
    assert_eq!(callbacks.strong_count(a.index), 2);
    callbacks.release(a);
    assert!(weak.emit(&mut callbacks));
    callbacks.release(a);
    assert_eq!(weak.upgrade(&callbacks), None);
    assert!(!weak.emit(&mut callbacks));
    a.emit(&mut callbacks);
    assert_eq!(callbacks.take_invoked(), vec![a]);
}

#[test]
fn weak_emitter_upgrades_until_disposed() {
    let mut callbacks = Callbacks::new();
    let emitter = CallbackEmitter::new(&mut callbacks);
    let weak = emitter.downgrade();
    assert_eq!(weak.upgrade(&callbacks), Some(emitter));
    emitter.dispose(&mut callbacks);
    assert_eq!(weak.upgrade(&callbacks), None);
    assert_eq!(emitter.len(&callbacks), 0);
}

#[test]
fn read_in_scope_subscribes_scope() {
    let mut rt: Runtime<i32> = Runtime::new();
    let signal = Signal::new_leaking(&mut rt.callbacks, &mut rt.values, 5);
    let effect = Callback::new(&mut rt.callbacks);
    rt.callbacks.enter_scope(effect);
    signal.read().track(&mut rt.callbacks);
    assert_eq!(rt.callbacks.exit_scope(), Some(effect));
    assert_eq!(signal.read().emitter(&rt.callbacks).unwrap().len(&rt.callbacks), 1);
    signal.set(&mut rt.callbacks, &mut rt.values, 6);
    assert_eq!(rt.callbacks.take_invoked(), vec![effect]);
}

#[test]
fn read_outside_scope_subscribes_nothing() {
    let mut rt: Runtime<i32> = Runtime::new();
    let signal = Signal::new_leaking(&mut rt.callbacks, &mut rt.values, 5);
    assert_eq!(signal.read().get(&mut rt.callbacks, &mut rt.values), 5);
    signal.set(&mut rt.callbacks, &mut rt.values, 6);
    assert!(rt.callbacks.take_invoked().is_empty());
    assert_eq!(signal.read().get_untracked(&rt.values), 6);
}

#[test]
fn explicit_subscription_survives_until_emit() {
    let mut rt: Runtime<i32> = Runtime::new();
    let signal = ReadSignal::new_leaking(&mut rt.callbacks, &mut rt.values, 1);
    let c = Callback::new(&mut rt.callbacks);
    signal.subscribe(&mut rt.callbacks, &c);
    Signal { signal }.set_untracked(&mut rt.values, 2);
    assert!(rt.callbacks.take_invoked().is_empty());
    assert_eq!(signal.try_get(&rt.values), Some(2));
    Signal { signal }.emit(&mut rt.callbacks);
    assert_eq!(rt.callbacks.take_invoked(), vec![c]);
}

#[test]
fn disposed_owned_signal_reads_none() {
    let mut rt: Runtime<i32> = Runtime::new();
    let owned = OwnedSignal::new(&mut rt.callbacks, &mut rt.values, 3);
    let handle = owned.signal;
    let read = handle.read();
    owned.dispose(&mut rt.callbacks, &mut rt.values);
    assert_eq!(read.try_get(&rt.values), None);
    assert_eq!(handle.try_set(&mut rt.callbacks, &mut rt.values, 4), Err(4));
    assert_eq!(handle.try_set_untracked(&mut rt.values, 5), Err(5));
    assert_eq!(read.emitter(&rt.callbacks), None);
}

#[test]
fn shared_owned_signal_lives_until_last_owner() {
    let mut rt: Runtime<i32> = Runtime::new();
    let owned = OwnedSignal::new(&mut rt.callbacks, &mut rt.values, 3);
    let second = owned.share(&mut rt.callbacks, &mut rt.values);
    let handle = owned.signal;
    owned.dispose(&mut rt.callbacks, &mut rt.values);
    assert_eq!(handle.read().try_get(&rt.values), Some(3));
    second.dispose(&mut rt.callbacks, &mut rt.values);
    assert_eq!(handle.read().try_get(&rt.values), None);
}

#[test]
fn bind_counts_an_owner() {
    let mut rt: Runtime<i32> = Runtime::new();
    let mut owned = OwnedSignal::new(&mut rt.callbacks, &mut rt.values, 1);
    let other = Signal::new_leaking(&mut rt.callbacks, &mut rt.values, 7);
    owned.bind(&mut rt.callbacks, &mut rt.values, other);
    assert_eq!(owned.signal, other);
    owned.dispose(&mut rt.callbacks, &mut rt.values);
    // new_leaking counted one owner and bind another
    assert_eq!(other.read().try_get(&rt.values), Some(7));
}

#[test]
fn modify_emits_once() {
    let mut rt: Runtime<Vec<i32>> = Runtime::new();
    let signal = Signal::new_leaking(&mut rt.callbacks, &mut rt.values, vec![1]);
    let c = Callback::new(&mut rt.callbacks);
    signal.read().subscribe(&mut rt.callbacks, &c);
    let mut m = signal.modify(&mut rt.callbacks, &mut rt.values);
    m.get_mut().push(2);
    m.get_mut().push(3);
    m.get_mut()[0] = 10;
    assert_eq!(m.get(), &vec![10, 2, 3]);
    m.finish(&mut rt.callbacks, &mut rt.values);
    assert_eq!(rt.callbacks.take_invoked(), vec![c]);
    assert_eq!(signal.read().try_get(&rt.values), Some(vec![10, 2, 3]));
}

#[test]
fn reused_slot_does_not_alias_old_id() {
    let mut slots: Slots<u8> = Slots::new();
    let a = slots.new_leaking(1);
    slots.dispose(a);
    let b = slots.new_leaking(2);
    assert_eq!(a.index, b.index);
    assert!(b.generation > a.generation);
    assert_eq!(slots.get(a), None);
    assert_eq!(slots.get(b), Some(2));
    assert_eq!(slots.set(a, 3), Err(3));
    assert_eq!(slots.replace(b, 4), Ok(2));
    assert_eq!(slots.get_ref(b), Some(&4));
}

#[test]
fn slot_references_delay_release() {
    let mut slots: Slots<u8> = Slots::new();
    let a = slots.new_leaking(1);
    slots.reference(a);
    slots.release(a);
    assert_eq!(slots.get(a), Some(1));
    slots.release(a);
    assert_eq!(slots.get(a), None);
}

#[test]
fn effect_tracks_signals_of_two_types() {
    let mut callbacks = Callbacks::new();
    let mut numbers: Slots<i32> = Slots::new();
    let mut names: Slots<String> = Slots::new();
    let count = Signal::new_leaking(&mut callbacks, &mut numbers, 1);
    let name = Signal::new_leaking(&mut callbacks, &mut names, String::from("a"));
    let effect = Callback::new(&mut callbacks);
    callbacks.enter_scope(effect);
    assert_eq!(count.read().get(&mut callbacks, &mut numbers), 1);
    assert_eq!(name.read().get(&mut callbacks, &mut names), "a");
    callbacks.exit_scope();
    name.set(&mut callbacks, &mut names, String::from("b"));
    assert_eq!(callbacks.take_invoked(), vec![effect]);
    count.set(&mut callbacks, &mut numbers, 2);
    assert_eq!(callbacks.take_invoked(), vec![effect]);
}
