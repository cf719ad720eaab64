use csv::Writer;
use csv_processing::{Client, ClientRaw, FourDecimals, MyError, Transaction, TransactionType};

fn amount(integer: u64, decimal: u16) -> FourDecimals {
    FourDecimals { integer, decimal }
}

fn deposit(tx: u32, a: FourDecimals) -> Transaction {
    Transaction { kind: TransactionType::Deposit, client: 1, tx, amount: Some(a) }
}

fn withdrawal(tx: u32, a: FourDecimals) -> Transaction {
    Transaction { kind: TransactionType::Withdrawal, client: 1, tx, amount: Some(a) }
}

fn dispute(tx: u32) -> Transaction {
    Transaction { kind: TransactionType::Dispute, client: 1, tx, amount: None }
}

fn resolve(tx: u32) -> Transaction {
    Transaction { kind: TransactionType::Resolve, client: 1, tx, amount: None }
}

fn balances(c: &Client) -> (FourDecimals, FourDecimals, FourDecimals, bool) {
    let s = c.snapshot();
    assert_eq!(s.available, c.available());
    assert_eq!(s.held, c.held());
    assert_eq!(s.total, c.total());
    (s.available, s.held, s.total, s.locked)
}

/// A small generator of repeatable numbers below 256.
fn next_byte(state: &mut u64) -> u64 {
    *state = state.wrapping_mul(6364136223846793005).wrapping_add(1442695040888963407);
    (*state >> 33) % 256
}

#[test]
fn serialize() {
    let mut client = Client::new(1);
    client.apply(deposit(1, amount(2, 2))).unwrap();
    client.apply(dispute(1)).unwrap();
    client.apply(deposit(2, amount(1, 0))).unwrap();
    let row = client.snapshot();

    let mut wtr = Writer::from_writer(Vec::new());
    wtr.write_record(&["client", "available", "held", "total", "locked"]).unwrap();
    wtr.write_record(&[
        row.client.to_string(),
        row.available.format(),
        row.held.format(),
        row.total.format(),
        row.locked.to_string(),
    ])
    .unwrap();
    wtr.flush().unwrap();
    let output = wtr.into_inner().unwrap();

    assert_eq!(
        String::from_utf8_lossy(&output),
        "client,available,held,total,locked\n1,1.0000,2.0002,3.0002,false\n"
    );
}

#[test]
fn new_client_is_empty_and_open() {
    let c = Client::new(9);
    assert_eq!(
        c.snapshot(),
        ClientRaw {
            client: 9,
            available: amount(0, 0),
            held: amount(0, 0),
            total: amount(0, 0),
            locked: false,
        }
    );
}

#[test]
fn deposit_withdraw_dispute_scenario() {
    let mut c = Client::new(1);
    assert_eq!(c.apply(deposit(1, amount(10, 0))), Ok(()));
    assert_eq!(balances(&c), (amount(10, 0), amount(0, 0), amount(10, 0), false));

    assert_eq!(c.apply(withdrawal(2, amount(15, 0))), Err(MyError::InsufficientFunds(1, 2)));
    assert_eq!(balances(&c), (amount(10, 0), amount(0, 0), amount(10, 0), false));

    assert_eq!(c.apply(withdrawal(3, amount(3, 0))), Ok(()));
    assert_eq!(balances(&c), (amount(7, 0), amount(0, 0), amount(7, 0), false));

    // The disputed deposit is larger than what is left: the dispute is
    // ignored, and opens nothing that a resolve or a chargeback could close.
    assert_eq!(c.apply(dispute(1)), Ok(()));
    assert_eq!(balances(&c), (amount(7, 0), amount(0, 0), amount(7, 0), false));

    assert_eq!(c.apply(resolve(1)), Ok(()));
    assert_eq!(balances(&c), (amount(7, 0), amount(0, 0), amount(7, 0), false));
    assert_eq!(c.apply(chargeback_of(1)), Ok(()));
    assert_eq!(balances(&c), (amount(7, 0), amount(0, 0), amount(7, 0), false));

    // A withdrawal still has to be covered by what is available.
    assert_eq!(c.apply(withdrawal(4, amount(1000, 0))), Err(MyError::InsufficientFunds(1, 4)));
    assert_eq!(balances(&c), (amount(7, 0), amount(0, 0), amount(7, 0), false));

    // Once the funds are back, the same dispute is honoured.
    assert_eq!(c.apply(deposit(5, amount(3, 0))), Ok(()));
    assert_eq!(c.apply(dispute(1)), Ok(()));
    assert_eq!(balances(&c), (amount(0, 0), amount(10, 0), amount(10, 0), false));
}

#[test]
fn dispute_of_exactly_what_is_available_is_honoured() {
    let mut c = Client::new(1);
    c.apply(deposit(1, amount(2, 5000))).unwrap();
    c.apply(dispute(1)).unwrap();
    assert_eq!(balances(&c), (amount(0, 0), amount(2, 5000), amount(2, 5000), false));
}

#[test]
fn dispute_of_a_withdrawal_holds_its_amount() {
    let mut c = Client::new(1);
    c.apply(deposit(1, amount(10, 0))).unwrap();
    c.apply(withdrawal(2, amount(4, 0))).unwrap();
    c.apply(dispute(2)).unwrap();
    assert_eq!(balances(&c), (amount(2, 0), amount(4, 0), amount(6, 0), false));
    assert_eq!(c.apply(withdrawal(3, amount(7, 0))), Err(MyError::InsufficientFunds(1, 3)));
    c.apply(dispute(3)).unwrap();
    assert_eq!(balances(&c), (amount(2, 0), amount(4, 0), amount(6, 0), false));
    c.apply(resolve(2)).unwrap();
    assert_eq!(balances(&c), (amount(6, 0), amount(0, 0), amount(6, 0), false));
}

#[test]
fn settling_more_than_is_held_is_ignored() {
    let mut c = Client::new(1);
    c.apply(deposit(1, amount(5, 0))).unwrap();
    c.apply(dispute(1)).unwrap();
    c.apply(deposit(1, amount(10, 0))).unwrap();
    let before = (amount(10, 0), amount(5, 0), amount(15, 0), false);
    assert_eq!(balances(&c), before);
    assert_eq!(c.apply(resolve(1)), Ok(()));
    assert_eq!(balances(&c), before);
    assert_eq!(c.apply(chargeback_of(1)), Ok(()));
    assert_eq!(balances(&c), before);

    // The dispute is still open: once the held balance covers the
    // recorded amount, the resolve goes through.
    c.apply(deposit(2, amount(5, 0))).unwrap();
    c.apply(dispute(2)).unwrap();
    assert_eq!(balances(&c), (amount(10, 0), amount(10, 0), amount(20, 0), false));
    c.apply(resolve(1)).unwrap();
    assert_eq!(balances(&c), (amount(20, 0), amount(0, 0), amount(20, 0), false));
}

#[test]
fn rejected_withdrawal_is_not_recorded() {
    let mut c = Client::new(1);
    c.apply(deposit(1, amount(1, 0))).unwrap();
    assert_eq!(c.apply(withdrawal(2, amount(1, 1))), Err(MyError::InsufficientFunds(1, 2)));
    c.apply(dispute(2)).unwrap();
    c.apply(chargeback_of(2)).unwrap();
    assert_eq!(balances(&c), (amount(1, 0), amount(0, 0), amount(1, 0), false));
}

#[test]
fn withdrawal_of_everything_is_accepted() {
    let mut c = Client::new(1);
    c.apply(deposit(1, amount(4, 2500))).unwrap();
    assert_eq!(c.apply(withdrawal(2, amount(4, 2500))), Ok(()));
    assert_eq!(balances(&c), (amount(0, 0), amount(0, 0), amount(0, 0), false));
    assert_eq!(c.apply(withdrawal(3, amount(0, 1))), Err(MyError::InsufficientFunds(1, 3)));
}

#[test]
fn missing_amount_counts_as_zero() {
    let mut c = Client::new(1);
    c.apply(deposit(1, amount(2, 0))).unwrap();
    let t = Transaction { kind: TransactionType::Deposit, client: 1, tx: 2, amount: None };
    assert_eq!(c.apply(t), Ok(()));
    let t = Transaction { kind: TransactionType::Withdrawal, client: 1, tx: 3, amount: None };
    assert_eq!(c.apply(t), Ok(()));
    assert_eq!(balances(&c), (amount(2, 0), amount(0, 0), amount(2, 0), false));
}

#[test]
fn dispute_then_resolve_round_trips() {
    let mut c = Client::new(1);
    c.apply(deposit(1, amount(5, 5000))).unwrap();
    c.apply(deposit(2, amount(1, 7500))).unwrap();
    let before = balances(&c);
    c.apply(dispute(2)).unwrap();
    assert_eq!(balances(&c), (amount(5, 5000), amount(1, 7500), amount(7, 2500), false));
    c.apply(resolve(2)).unwrap();
    assert_eq!(balances(&c), before);
}

#[test]
fn dispute_then_chargeback_locks() {
    let mut c = Client::new(1);
    c.apply(deposit(1, amount(5, 5000))).unwrap();
    c.apply(deposit(2, amount(1, 7500))).unwrap();
    c.apply(dispute(2)).unwrap();
    c.apply(chargeback_of(2)).unwrap();
    let after = (amount(5, 5000), amount(0, 0), amount(5, 5000), true);
    assert_eq!(balances(&c), after);

    assert_eq!(c.apply(deposit(3, amount(100, 0))), Ok(()));
    assert_eq!(c.apply(withdrawal(4, amount(1, 0))), Ok(()));
    assert_eq!(c.apply(withdrawal(5, amount(1000, 0))), Ok(()));
    assert_eq!(c.apply(dispute(1)), Ok(()));
    assert_eq!(c.apply(resolve(1)), Ok(()));
    assert_eq!(c.apply(chargeback_of(1)), Ok(()));
    assert_eq!(balances(&c), after);
}

#[test]
fn dispute_twice_counts_once() {
    let mut c = Client::new(1);
    c.apply(deposit(1, amount(5, 0))).unwrap();
    c.apply(deposit(2, amount(3, 0))).unwrap();
    c.apply(dispute(1)).unwrap();
    let once = balances(&c);
    assert_eq!(once, (amount(3, 0), amount(5, 0), amount(8, 0), false));
    c.apply(dispute(1)).unwrap();
    assert_eq!(balances(&c), once);
}

#[test]
fn settling_an_undisputed_transaction_does_nothing() {
    let mut c = Client::new(1);
    c.apply(deposit(1, amount(5, 0))).unwrap();
    let before = balances(&c);
    assert_eq!(c.apply(resolve(1)), Ok(()));
    assert_eq!(c.apply(chargeback_of(1)), Ok(()));
    assert_eq!(c.apply(resolve(77)), Ok(()));
    assert_eq!(c.apply(chargeback_of(77)), Ok(()));
    assert_eq!(balances(&c), before);
}

#[test]
fn dispute_of_an_unknown_transaction_moves_nothing() {
    let mut c = Client::new(1);
    c.apply(deposit(1, amount(5, 0))).unwrap();
    let before = balances(&c);
    assert_eq!(c.apply(dispute(42)), Ok(()));
    assert_eq!(balances(&c), before);
    assert_eq!(c.apply(chargeback_of(42)), Ok(()));
    assert_eq!(balances(&c), before);
    assert_eq!(c.apply(deposit(2, amount(1, 0))), Ok(()));
    assert_eq!(balances(&c), (amount(6, 0), amount(0, 0), amount(6, 0), false));
}

#[test]
fn resolve_ends_the_dispute() {
    let mut c = Client::new(1);
    c.apply(deposit(1, amount(5, 0))).unwrap();
    c.apply(dispute(1)).unwrap();
    c.apply(resolve(1)).unwrap();
    c.apply(chargeback_of(1)).unwrap();
    assert_eq!(balances(&c), (amount(5, 0), amount(0, 0), amount(5, 0), false));
    c.apply(dispute(1)).unwrap();
    assert_eq!(balances(&c), (amount(0, 0), amount(5, 0), amount(5, 0), false));
}

#[test]
fn reused_id_keeps_the_later_amount() {
    let mut c = Client::new(1);
    c.apply(deposit(1, amount(5, 0))).unwrap();
    c.apply(deposit(1, amount(2, 0))).unwrap();
    c.apply(dispute(1)).unwrap();
    assert_eq!(balances(&c), (amount(5, 0), amount(2, 0), amount(7, 0), false));
}

#[test]
fn deposits_withdrawals() {
    for rounds in [0u64, 1, 2, 17, 255] {
        let mut state = rounds + 1;
        let mut tx = 0;
        let mut client = Client::new(0);
        let mut model = 0;
        for _ in 0..rounds {
            let a = next_byte(&mut state);
            model += a;
            let _ = client.apply(deposit(tx, amount(a, 0)));
            tx += 1;
            let w = next_byte(&mut state) % 10001;
            if w <= model {
                model -= w;
            }
            let _ = client.apply(withdrawal(tx, amount(w, 0)));
            tx += 1;
        }
        assert_eq!(client.total().integer, model);
        assert_eq!(client.available().integer, model);
        assert_eq!(client.held().integer, 0);
    }
}

#[test]
fn deposits_undisputed() {
    for rounds in [0u64, 1, 2, 17, 255] {
        let mut state = rounds + 2;
        let mut tx = 0;
        let mut client = Client::new(0);
        let mut model = 0;
        for i in 0..rounds {
            let a = next_byte(&mut state);
            model += a;
            let _ = client.apply(deposit(tx, amount(a, 0)));
            if i % 2 == 0 {
                let _ = client.apply(resolve(tx));
                let _ = client.apply(chargeback_of(tx));
            } else {
                let _ = client.apply(chargeback_of(tx));
                let _ = client.apply(resolve(tx));
            }
            tx += 1;
        }
        assert_eq!(client.total().integer, model);
        assert_eq!(client.available().integer, model);
        assert_eq!(client.held().integer, 0);
    }
}

#[test]
fn deposits_disputes() {
    for rounds in [0u64, 1, 2, 17, 255] {
        let mut state = rounds + 3;
        let mut tx = 0;
        let mut client = Client::new(0);
        let mut model_available = 0;
        let mut model_held = 0;
        let mut model_total = 0;
        for i in 0..rounds {
            let a = next_byte(&mut state);
            model_available += a;
            model_total += a;
            let _ = client.apply(deposit(tx, amount(a, 0)));
            if i % 2 == 0 {
                let _ = client.apply(dispute(tx));
                model_available -= a;
                model_held += a;
            }
            tx += 1;
        }
        assert_eq!(client.available().integer, model_available);
        assert_eq!(client.held().integer, model_held);
        assert_eq!(client.total().integer, model_total);
    }
}

#[test]
fn deposits_disputes_resolves() {
    for rounds in [0u64, 1, 2, 17, 255] {
        let mut state = rounds + 4;
        let mut tx = 0;
        let mut client = Client::new(0);
        let mut model_available = 0;
        let mut model_held = 0;
        let mut model_total = 0;
        for i in 0..rounds {
            let a = next_byte(&mut state);
            model_available += a;
            model_total += a;
            let _ = client.apply(deposit(tx, amount(a, 0)));
            if i % 2 == 0 {
                let _ = client.apply(dispute(tx));
                model_available -= a;
                model_held += a;
                if i % 3 == 0 {
                    let _ = client.apply(resolve(tx));
                    model_available += a;
                    model_held -= a;
                }
            }
            tx += 1;
        }
        assert_eq!(client.available().integer, model_available);
        assert_eq!(client.held().integer, model_held);
        assert_eq!(client.total().integer, model_total);
    }
}

#[test]
fn chargeback() {
    for rounds in [0u64, 1, 2, 17, 255] {
        let mut state = rounds + 5;
        let mut tx = 0;
        let mut client = Client::new(0);
        let mut model = 0;
        let first = next_byte(&mut state);
        let _ = client.apply(deposit(tx, amount(first, 0)));
        let _ = client.apply(dispute(tx));
        let _ = client.apply(chargeback_of(tx));
        tx += 1;
        for _ in 0..rounds {
            let a = next_byte(&mut state);
            model += a;
            let _ = client.apply(deposit(tx, amount(a, 0)));
            tx += 1;
            let w = next_byte(&mut state) % (model + 1);
            model -= w;
            let _ = client.apply(withdrawal(tx, amount(w, 0)));
            tx += 1;
        }
        assert_eq!(client.total().integer, 0);
        assert_eq!(client.available().integer, 0);
        assert_eq!(client.held().integer, 0);
        assert!(client.snapshot().locked);
    }
}

fn chargeback_of(tx: u32) -> Transaction {
    Transaction { kind: TransactionType::Chargeback, client: 1, tx, amount: None }
}
