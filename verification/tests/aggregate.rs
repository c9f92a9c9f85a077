use eventfold_es::Aggregate;

/// A simple counter aggregate.
#[derive(Debug, Clone, Default, PartialEq)]
struct Counter {
    value: u64,
}

/// Commands that can be issued to the `Counter` aggregate.
#[derive(Clone)]
enum CounterCommand {
    Increment,
    Decrement,
    Add(u64),
}

/// Domain events produced by the `Counter` aggregate.
#[derive(Debug, Clone, PartialEq)]
enum CounterEvent {
    Incremented,
    Decremented,
    Added { amount: u64 },
}

/// Errors that can occur when handling a `CounterCommand`.
#[derive(Debug)]
enum CounterError {
    AlreadyZero,
}

impl std::fmt::Display for CounterError {
    fn fmt(&self, f: &mut std::fmt::Formatter<'_>) -> std::fmt::Result {
        match self {
            CounterError::AlreadyZero => f.write_str("cannot decrement: counter is already zero"),
        }
    }
}

impl Aggregate for Counter {
    const AGGREGATE_TYPE: &'static str = "counter";

    type Command = CounterCommand;
    type DomainEvent = CounterEvent;
    type Error = CounterError;

    fn handle(&self, cmd: Self::Command) -> Result<Vec<Self::DomainEvent>, Self::Error> {
        match cmd {
            CounterCommand::Increment => Ok(vec![CounterEvent::Incremented]),
            CounterCommand::Decrement => {
                if self.value == 0 {
                    return Err(CounterError::AlreadyZero);
                }
                Ok(vec![CounterEvent::Decremented])
            }
            CounterCommand::Add(n) => Ok(vec![CounterEvent::Added { amount: n }]),
        }
    }

    fn apply(mut self, event: &Self::DomainEvent) -> Self {
        match event {
            CounterEvent::Incremented => self.value += 1,
            CounterEvent::Decremented => self.value -= 1,
            CounterEvent::Added { amount } => self.value += amount,
        }
        self
    }
}

#[test]
fn handle_increment() {
    let counter = Counter::default();
    let events = counter.handle(CounterCommand::Increment).unwrap();
    assert_eq!(events, vec![CounterEvent::Incremented]);
}

#[test]
fn handle_decrement_nonzero() {
    let counter = Counter { value: 5 };
    let events = counter.handle(CounterCommand::Decrement).unwrap();
    assert_eq!(events, vec![CounterEvent::Decremented]);
}

#[test]
fn handle_decrement_at_zero() {
    let counter = Counter::default();
    let result = counter.handle(CounterCommand::Decrement);
    assert!(result.is_err());
    let err = result.unwrap_err();
    assert!(
        matches!(err, CounterError::AlreadyZero),
        "expected AlreadyZero, got: {err}"
    );
}

#[test]
fn handle_add() {
    let counter = Counter::default();
    let events = counter.handle(CounterCommand::Add(5)).unwrap();
    assert_eq!(events, vec![CounterEvent::Added { amount: 5 }]);
}

#[test]
fn apply_incremented() {
    let counter = Counter::default().apply(&CounterEvent::Incremented);
    assert_eq!(counter.value, 1);
}

#[test]
fn apply_decremented() {
    let counter = Counter { value: 3 }.apply(&CounterEvent::Decremented);
    assert_eq!(counter.value, 2);
}

#[test]
fn apply_added() {
    let counter = Counter::default().apply(&CounterEvent::Added { amount: 5 });
    assert_eq!(counter.value, 5);
}

#[test]
fn handle_then_apply_roundtrip() {
    let counter = Counter::default();
    let events = counter.handle(CounterCommand::Increment).unwrap();
    // Fold all produced events through `apply` to derive the final state.
    let final_state = events
        .iter()
        .fold(Counter::default(), |state, event| state.apply(event));
    assert_eq!(final_state.value, 1);
}
