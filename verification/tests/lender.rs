use talk::lender::AtomicLender;

#[test]
fn stress() {
    let mut lender = AtomicLender::new(1);

    for index in 0..32 {
        if index < 16 {
            for _ in 0..10 {
                assert!(lender.is_available());
                let thing = lender.take();
                assert!(!lender.is_available());
                lender.restore(thing);
            }
        } else {
            for _ in 0..10 {
                if let Some(thing) = lender.try_take() {
                    assert_eq!(lender.try_take(), None);
                    lender.restore(thing);
                }
            }
        }
    }

    assert_eq!(lender.take(), 1);
}

#[test]
fn take_returns_what_was_restored() {
    let mut lender = AtomicLender::new(String::from("first"));
    assert_eq!(lender.take(), "first");
    lender.restore(String::from("second"));
    assert_eq!(lender.try_take(), Some(String::from("second")));
}

#[test]
fn try_take_on_lent_cell_gives_nothing() {
    let mut lender = AtomicLender::new(7u32);
    assert_eq!(lender.try_take(), Some(7));
    assert!(!lender.is_available());
    assert_eq!(lender.try_take(), None);
    assert_eq!(lender.try_take(), None);
    lender.restore(8);
    assert!(lender.is_available());
    assert_eq!(lender.take(), 8);
}
