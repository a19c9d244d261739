use ownership_rules::classify::{classify, Classification, ValueType};
use ownership_rules::lifetime::Region;
use ownership_rules::state::{rejection_of, step, Event, OwnState};
use ownership_rules::table::{Binding, BindingTable, Reference};
use ownership_rules::violation::{Rejection, Violation};

fn live(table: &BindingTable, target: usize, exclusive: bool) -> usize {
    let mut n = 0;
    for r in 0..table.ref_count() {
        let reference = table.reference(r);
        if reference.target == target && reference.exclusive == exclusive && reference.end.is_none()
        {
            n += 1;
        }
    }
    n
}

#[test]
fn primitives_are_copy_and_owners_are_move() {
    assert_eq!(classify(ValueType::Integer), Classification::Copy);
    assert_eq!(classify(ValueType::Fractional), Classification::Copy);
    assert_eq!(classify(ValueType::Boolean), Classification::Copy);
    assert_eq!(classify(ValueType::Character), Classification::Copy);
    assert_eq!(classify(ValueType::Text), Classification::Move);
    assert_eq!(classify(ValueType::IntegerList), Classification::Move);
    assert_eq!(classify(ValueType::Handle), Classification::Move);
}

#[test]
fn declare_hands_out_consecutive_ids() {
    let mut table = BindingTable::new();
    assert_eq!(table.len(), 0);
    let a = table.declare(String::from("a"), 0, Classification::Move, false);
    let b = table.declare(String::from("b"), 1, Classification::Copy, true);
    assert_eq!((a, b), (0, 1));
    assert_eq!(table.len(), 2);
    assert_eq!(table.name_of(a), "a");
    assert_eq!(table.name_of(b), "b");
    assert_eq!(
        table.binding(a),
        Binding {
            scope: 0,
            class: Classification::Move,
            mutable: false,
            state: OwnState::Owned,
            since: None
        }
    );
    assert_eq!(
        table.binding(b),
        Binding {
            scope: 1,
            class: Classification::Copy,
            mutable: true,
            state: OwnState::Owned,
            since: None
        }
    );
}

#[test]
fn use_after_move_is_rejected() {
    let mut table = BindingTable::new();
    let s = table.declare(String::from("s"), 0, classify(ValueType::Text), false);
    assert_eq!(table.use_binding(s, 1), Ok(()));
    assert_eq!(table.transfer(s, 2), Ok(()));
    assert_eq!(table.binding(s).state, OwnState::MovedOut);
    assert_eq!(table.binding(s).since, Some(2));
    assert_eq!(
        table.use_binding(s, 3),
        Err(Rejection { kind: Violation::UseAfterMove, binding: s, at: 3, since: Some(2) })
    );
}

#[test]
fn every_later_event_on_a_moved_binding_fails_or_keeps_it_moved() {
    let mut table = BindingTable::new();
    let s = table.declare(String::from("s"), 0, Classification::Move, true);
    assert_eq!(table.transfer(s, 1), Ok(()));
    assert_eq!(table.use_binding(s, 2).unwrap_err().kind, Violation::UseAfterMove);
    assert_eq!(table.borrow_shared(s, 3).unwrap_err().kind, Violation::UseAfterMove);
    assert_eq!(table.borrow_exclusive(s, 4).unwrap_err().kind, Violation::UseAfterMove);
    assert_eq!(table.transfer(s, 5).unwrap_err().kind, Violation::UseAfterMove);
    assert_eq!(
        table.duplicate(s, String::from("t"), 0, false, 6).unwrap_err().kind,
        Violation::UseAfterMove
    );
    assert_eq!(table.drop_scope(0, 7), Vec::<usize>::new());
    assert_eq!(table.binding(s).state, OwnState::MovedOut);
    assert_eq!(table.binding(s).since, Some(1));
    assert_eq!(table.len(), 1);
}

#[test]
fn exclusive_borrow_conflicts_with_live_shared_borrows() {
    let mut table = BindingTable::new();
    let s = table.declare(String::from("s"), 0, Classification::Move, true);
    let r1 = table.borrow_shared(s, 1).unwrap();
    let r2 = table.borrow_shared(s, 2).unwrap();
    assert_eq!((r1, r2), (0, 1));
    assert_eq!(table.binding(s).state, OwnState::Shared(2));
    assert_eq!(
        table.borrow_exclusive(s, 3),
        Err(Rejection { kind: Violation::BorrowConflict, binding: s, at: 3, since: Some(2) })
    );
    assert_eq!(table.binding(s).state, OwnState::Shared(2));
    assert_eq!(table.ref_count(), 2);
}

#[test]
fn shared_borrow_conflicts_with_live_exclusive_borrow() {
    let mut table = BindingTable::new();
    let s = table.declare(String::from("s"), 0, Classification::Move, true);
    let r = table.borrow_exclusive(s, 1).unwrap();
    assert_eq!(table.binding(s).state, OwnState::Exclusive);
    assert_eq!(table.borrow_shared(s, 2).unwrap_err().kind, Violation::BorrowConflict);
    assert_eq!(table.borrow_exclusive(s, 3).unwrap_err().kind, Violation::BorrowConflict);
    assert!(table.release(r, 4));
    assert_eq!(table.binding(s).state, OwnState::Owned);
    assert_eq!(
        table.reference(r),
        Reference { target: s, exclusive: true, start: 1, end: Some(4) }
    );
    assert!(table.borrow_shared(s, 5).is_ok());
}

#[test]
fn shared_count_follows_the_live_references() {
    let mut table = BindingTable::new();
    let s = table.declare(String::from("s"), 0, Classification::Move, false);
    let r1 = table.borrow_shared(s, 1).unwrap();
    assert_eq!(table.binding(s).state, OwnState::Shared(1));
    let r2 = table.borrow_shared(s, 2).unwrap();
    let r3 = table.borrow_shared(s, 3).unwrap();
    assert_eq!(table.binding(s).state, OwnState::Shared(3));
    assert!(table.release(r2, 4));
    assert_eq!(table.binding(s).state, OwnState::Shared(2));
    assert!(!table.release(r2, 5));
    assert_eq!(table.binding(s).state, OwnState::Shared(2));
    assert_eq!(table.reference(r2).end, Some(4));
    assert!(table.release(r1, 6));
    assert_eq!(table.binding(s).state, OwnState::Shared(1));
    assert!(table.release(r3, 7));
    assert_eq!(table.binding(s).state, OwnState::Owned);
    assert_eq!(table.binding(s).since, Some(7));
}

#[test]
fn aliasing_rule_holds_after_every_operation() {
    let mut table = BindingTable::new();
    let a = table.declare(String::from("a"), 0, Classification::Move, true);
    let b = table.declare(String::from("b"), 0, Classification::Copy, true);
    let mut taken: Vec<usize> = Vec::new();
    for round in 0..40u64 {
        let id = if round % 3 == 0 { b } else { a };
        let outcome = if round % 4 == 1 {
            table.borrow_exclusive(id, round)
        } else {
            table.borrow_shared(id, round)
        };
        if let Ok(r) = outcome {
            taken.push(r);
        }
        if round % 5 == 4 {
            for r in taken.drain(..) {
                table.release(r, round);
            }
        }
        for id in [a, b] {
            let exclusive = live(&table, id, true);
            let shared = live(&table, id, false);
            assert!(exclusive <= 1);
            assert!(exclusive == 0 || shared == 0);
            match table.binding(id).state {
                OwnState::Shared(n) => assert!(n >= 1 && n == shared && exclusive == 0),
                OwnState::Exclusive => assert!(exclusive == 1 && shared == 0),
                _ => assert!(exclusive == 0 && shared == 0),
            }
        }
    }
}

#[test]
fn move_while_borrowed_is_rejected() {
    let mut table = BindingTable::new();
    let s = table.declare(String::from("s"), 0, Classification::Move, false);
    let r = table.borrow_shared(s, 1).unwrap();
    assert_eq!(
        table.transfer(s, 2),
        Err(Rejection { kind: Violation::MoveWhileBorrowed, binding: s, at: 2, since: Some(1) })
    );
    assert!(table.release(r, 3));
    let x = table.borrow_exclusive(s, 4).unwrap();
    assert_eq!(table.transfer(s, 5).unwrap_err().kind, Violation::MoveWhileBorrowed);
    assert!(table.release(x, 6));
    assert_eq!(table.transfer(s, 7), Ok(()));
    assert_eq!(table.binding(s).state, OwnState::MovedOut);
}

#[test]
fn copy_transfer_leaves_the_source_alone() {
    let mut table = BindingTable::new();
    let x = table.declare(String::from("x"), 0, classify(ValueType::Integer), false);
    let before = table.binding(x);
    assert_eq!(table.transfer(x, 1), Ok(()));
    assert_eq!(table.binding(x), before);
    let y = table.assign(x, String::from("y"), 0, false, 2).unwrap();
    assert_eq!(table.binding(x), before);
    assert_eq!(table.binding(y).state, OwnState::Owned);
    assert_eq!(table.binding(y).class, Classification::Copy);
    let r = table.borrow_shared(x, 3).unwrap();
    let borrowed = table.binding(x);
    assert_eq!(borrowed.state, OwnState::Shared(1));
    assert_eq!(table.transfer(x, 4), Ok(()));
    assert_eq!(table.binding(x), borrowed);
    assert!(table.release(r, 5));
    assert_eq!(table.use_binding(x, 6), Ok(()));
}

#[test]
fn assign_moves_into_a_new_binding() {
    let mut table = BindingTable::new();
    let s1 = table.declare(String::from("s1"), 0, Classification::Move, false);
    let s2 = table.assign(s1, String::from("s2"), 0, true, 1).unwrap();
    assert_eq!(s2, 1);
    assert_eq!(table.binding(s1).state, OwnState::MovedOut);
    assert_eq!(
        table.binding(s2),
        Binding {
            scope: 0,
            class: Classification::Move,
            mutable: true,
            state: OwnState::Owned,
            since: None
        }
    );
    assert_eq!(table.name_of(s2), "s2");
    assert_eq!(
        table.assign(s1, String::from("s3"), 0, false, 2),
        Err(Rejection { kind: Violation::UseAfterMove, binding: s1, at: 2, since: Some(1) })
    );
    assert_eq!(table.len(), 2);
}

#[test]
fn duplicate_makes_a_fresh_owned_binding() {
    let mut table = BindingTable::new();
    let s1 = table.declare(String::from("s1"), 0, Classification::Move, false);
    let r = table.borrow_shared(s1, 1).unwrap();
    let s2 = table.duplicate(s1, String::from("s2"), 1, false, 2).unwrap();
    assert_eq!(table.binding(s1).state, OwnState::Shared(1));
    assert_eq!(table.binding(s2).state, OwnState::Owned);
    assert_eq!(table.binding(s2).class, Classification::Move);
    assert_eq!(table.binding(s2).scope, 1);
    assert!(table.release(r, 3));
    assert_eq!(table.use_binding(s1, 4), Ok(()));
    assert_eq!(table.use_binding(s2, 4), Ok(()));
}

#[test]
fn scope_exit_drops_owned_bindings_latest_first() {
    let mut table = BindingTable::new();
    let a = table.declare(String::from("a"), 1, Classification::Move, false);
    let outer = table.declare(String::from("outer"), 0, Classification::Move, false);
    let b = table.declare(String::from("b"), 1, Classification::Copy, false);
    let moved = table.declare(String::from("moved"), 1, Classification::Move, false);
    let c = table.declare(String::from("c"), 1, Classification::Move, false);
    let lent = table.declare(String::from("lent"), 1, Classification::Move, false);
    assert_eq!(table.transfer(moved, 5), Ok(()));
    let r = table.borrow_shared(lent, 6).unwrap();
    assert_eq!(table.drop_scope(1, 9), vec![c, b, a]);
    for id in [a, b, c] {
        assert_eq!(table.binding(id).state, OwnState::Dropped);
        assert_eq!(table.binding(id).since, Some(9));
    }
    assert_eq!(table.binding(outer).state, OwnState::Owned);
    assert_eq!(table.binding(moved).state, OwnState::MovedOut);
    assert_eq!(table.binding(moved).since, Some(5));
    assert_eq!(table.binding(lent).state, OwnState::Shared(1));
    assert_eq!(
        table.use_binding(a, 10),
        Err(Rejection { kind: Violation::UseAfterDrop, binding: a, at: 10, since: Some(9) })
    );
    assert_eq!(table.borrow_shared(b, 11).unwrap_err().kind, Violation::UseAfterDrop);
    assert_eq!(table.transfer(c, 12).unwrap_err().kind, Violation::UseAfterDrop);
    assert_eq!(table.drop_scope(1, 13), Vec::<usize>::new());
    assert!(table.release(r, 14));
    assert_eq!(table.drop_scope(1, 15), vec![lent]);
    assert_eq!(table.drop_scope(0, 16), vec![outer]);
}

#[test]
fn scope_exit_on_an_empty_table_releases_nothing() {
    let mut table = BindingTable::new();
    assert_eq!(table.drop_scope(0, 1), Vec::<usize>::new());
    assert_eq!(table.len(), 0);
}

#[test]
fn step_follows_the_state_machine() {
    let mv = Classification::Move;
    let cp = Classification::Copy;
    assert_eq!(step(OwnState::Owned, mv, Event::ShareStart), Ok(OwnState::Shared(1)));
    assert_eq!(step(OwnState::Shared(1), mv, Event::ShareStart), Ok(OwnState::Shared(2)));
    assert_eq!(step(OwnState::Shared(2), mv, Event::ShareEnd), Ok(OwnState::Shared(1)));
    assert_eq!(step(OwnState::Shared(1), mv, Event::ShareEnd), Ok(OwnState::Owned));
    assert_eq!(step(OwnState::Owned, mv, Event::ExclusiveStart), Ok(OwnState::Exclusive));
    assert_eq!(step(OwnState::Exclusive, mv, Event::ExclusiveEnd), Ok(OwnState::Owned));
    assert_eq!(step(OwnState::Shared(3), mv, Event::ExclusiveStart), Err(Violation::BorrowConflict));
    assert_eq!(step(OwnState::Exclusive, mv, Event::ExclusiveStart), Err(Violation::BorrowConflict));
    assert_eq!(step(OwnState::Exclusive, mv, Event::ShareStart), Err(Violation::BorrowConflict));
    assert_eq!(step(OwnState::Owned, mv, Event::Transfer), Ok(OwnState::MovedOut));
    assert_eq!(step(OwnState::Owned, cp, Event::Transfer), Ok(OwnState::Owned));
    assert_eq!(step(OwnState::Exclusive, cp, Event::Transfer), Ok(OwnState::Exclusive));
    assert_eq!(step(OwnState::Shared(1), mv, Event::Transfer), Err(Violation::MoveWhileBorrowed));
    assert_eq!(step(OwnState::Exclusive, mv, Event::Transfer), Err(Violation::MoveWhileBorrowed));
    assert_eq!(step(OwnState::Owned, mv, Event::ScopeExit), Ok(OwnState::Dropped));
    assert_eq!(step(OwnState::MovedOut, mv, Event::ScopeExit), Ok(OwnState::MovedOut));
    assert_eq!(step(OwnState::Dropped, mv, Event::ScopeExit), Ok(OwnState::Dropped));
    assert_eq!(step(OwnState::MovedOut, mv, Event::Use), Err(Violation::UseAfterMove));
    assert_eq!(step(OwnState::Dropped, cp, Event::Use), Err(Violation::UseAfterDrop));
    assert_eq!(step(OwnState::Dropped, cp, Event::Transfer), Err(Violation::UseAfterDrop));
    assert_eq!(step(OwnState::Exclusive, mv, Event::Use), Ok(OwnState::Exclusive));
    assert_eq!(step(OwnState::Owned, mv, Event::ShareEnd), Ok(OwnState::Owned));
    assert_eq!(step(OwnState::Shared(2), mv, Event::ExclusiveEnd), Ok(OwnState::Shared(2)));
}

#[test]
fn rejection_agrees_with_step() {
    let states = [
        OwnState::Owned,
        OwnState::MovedOut,
        OwnState::Shared(1),
        OwnState::Shared(7),
        OwnState::Exclusive,
        OwnState::Dropped,
    ];
    let events = [
        Event::Use,
        Event::ShareStart,
        Event::ShareEnd,
        Event::ExclusiveStart,
        Event::ExclusiveEnd,
        Event::Transfer,
        Event::ScopeExit,
    ];
    for class in [Classification::Copy, Classification::Move] {
        for s in states {
            for ev in events {
                assert_eq!(rejection_of(s, class, ev), step(s, class, ev).err());
            }
        }
    }
}

#[test]
fn scope_exit_check_names_the_first_borrowed_binding() {
    let mut table = BindingTable::new();
    let a = table.declare(String::from("a"), 1, Classification::Move, false);
    let b = table.declare(String::from("b"), 1, Classification::Move, true);
    let c = table.declare(String::from("c"), 2, Classification::Move, true);
    assert_eq!(table.check_scope_exit(1, 1), Ok(()));
    let rc = table.borrow_exclusive(c, 2).unwrap();
    assert_eq!(table.check_scope_exit(1, 3), Ok(()));
    assert_eq!(
        table.check_scope_exit(2, 3),
        Err(Rejection { kind: Violation::LifetimeViolation, binding: c, at: 3, since: Some(2) })
    );
    let rb = table.borrow_shared(b, 4).unwrap();
    let ra = table.borrow_shared(a, 5).unwrap();
    assert_eq!(
        table.check_scope_exit(1, 6),
        Err(Rejection { kind: Violation::LifetimeViolation, binding: a, at: 6, since: Some(5) })
    );
    assert!(table.release(ra, 7));
    assert_eq!(
        table.check_scope_exit(1, 8),
        Err(Rejection { kind: Violation::LifetimeViolation, binding: b, at: 8, since: Some(4) })
    );
    assert!(table.release(rb, 9));
    assert!(table.release(rc, 9));
    assert_eq!(table.check_scope_exit(1, 10), Ok(()));
    assert_eq!(table.check_scope_exit(2, 10), Ok(()));
}

#[test]
fn reference_ends_at_its_last_use() {
    let mut table = BindingTable::new();
    let s = table.declare(String::from("s"), 0, Classification::Move, true);
    let r1 = table.borrow_shared(s, 3).unwrap();
    let r2 = table.borrow_shared(s, 4).unwrap();
    assert_eq!(
        table.release_after_last_use(r1, &vec![5, 8, 6]),
        Some(Region::Span { start: 3, end: 8 })
    );
    assert_eq!(table.reference(r1), Reference { target: s, exclusive: false, start: 3, end: Some(8) });
    assert_eq!(table.binding(s).state, OwnState::Shared(1));
    assert_eq!(table.release_after_last_use(r1, &vec![20]), None);
    assert_eq!(table.reference(r1).end, Some(8));
    assert_eq!(
        table.release_after_last_use(r2, &vec![]),
        Some(Region::Span { start: 4, end: 4 })
    );
    assert_eq!(table.binding(s).state, OwnState::Owned);
    assert_eq!(table.binding(s).since, Some(4));
    let x = table.borrow_exclusive(s, 9).unwrap();
    assert_eq!(
        table.release_after_last_use(x, &vec![10, 2]),
        Some(Region::Span { start: 9, end: 10 })
    );
    assert_eq!(table.binding(s).state, OwnState::Owned);
}
