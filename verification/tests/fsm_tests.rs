use hierarchical_fsm::FsmError;
use hierarchical_fsm::Response;
use hierarchical_fsm::StateMachine;
use hierarchical_fsm::StateMachineBuilder;
use hierarchical_fsm::Stateful;
use std::sync::Arc;
use std::sync::Mutex;

// Test state identifiers
const ROOT: u64 = 0;
const MENU: u64 = 1;
const SETTINGS: u64 = 2;
const DISPLAY: u64 = 3;
const VOLUME: u64 = 4;

// Test event enum
#[derive(Debug, Clone)]
enum TestEvent {
    Enter,
    Back,
    Up,
    Down,
    Select,
    Timeout,
}

// Test context
#[derive(Debug)]
struct TestContext {
    pub value: i32,
    pub transitions: Vec<String>,
    pub entries: Vec<String>,
    pub exits: Vec<String>,
}

impl TestContext {
    fn new() -> Self {
        Self {
            value: 0,
            transitions: Vec::new(),
            entries: Vec::new(),
            exits: Vec::new(),
        }
    }
}

// One handler value per state, all of one type
enum TestHandler {
    Root,
    Menu,
    Settings,
    Display,
    Volume,
}

impl Stateful<u64, TestContext, TestEvent> for TestHandler {
    fn on_enter(&mut self, context: &mut TestContext) -> Response<u64> {
        match self {
            TestHandler::Root => {
                context.entries.push("Root".to_string());
                Response::Handled
            }
            TestHandler::Menu => {
                context.entries.push("Menu".to_string());
                Response::Handled
            }
            TestHandler::Settings => {
                context.entries.push("Settings".to_string());
                Response::Handled
            }
            TestHandler::Display => {
                context.entries.push("Display".to_string());
                Response::Handled
            }
            TestHandler::Volume => {
                context.entries.push("Volume".to_string());
                // Immediately transition to Root
                Response::Transition(ROOT)
            }
        }
    }

    fn on_event(&mut self, event: &TestEvent, context: &mut TestContext) -> Response<u64> {
        match self {
            TestHandler::Root => match event {
                TestEvent::Enter => {
                    context.transitions.push("Root->Menu".to_string());
                    Response::Transition(MENU)
                }
                _ => Response::Error("Root: Unhandled event".to_string()),
            },
            TestHandler::Menu => match event {
                TestEvent::Back => {
                    context.transitions.push("Menu->Root".to_string());
                    Response::Transition(ROOT)
                }
                TestEvent::Select => {
                    context.transitions.push("Menu->Settings".to_string());
                    Response::Transition(SETTINGS)
                }
                TestEvent::Up | TestEvent::Down => {
                    context.value += if matches!(event, TestEvent::Up) { 1 } else { -1 };
                    Response::Handled
                }
                _ => Response::Super, // Delegate to superstate
            },
            TestHandler::Settings => match event {
                TestEvent::Select => Response::Transition(DISPLAY),
                TestEvent::Back => Response::Transition(MENU),
                _ => Response::Super, // Only delegate unhandled events
            },
            TestHandler::Display => match event {
                TestEvent::Up => {
                    context.value += 10;
                    Response::Handled
                }
                TestEvent::Down => {
                    context.value -= 10;
                    Response::Handled
                }
                _ => Response::Super,
            },
            TestHandler::Volume => Response::Handled,
        }
    }

    fn on_exit(&mut self, context: &mut TestContext) {
        match self {
            TestHandler::Root => context.exits.push("Root".to_string()),
            TestHandler::Menu => context.exits.push("Menu".to_string()),
            TestHandler::Settings => context.exits.push("Settings".to_string()),
            TestHandler::Display => context.exits.push("Display".to_string()),
            TestHandler::Volume => context.exits.push("Volume".to_string()),
        }
    }

    fn get_timeout(&self, context: &TestContext) -> Option<u64> {
        match self {
            TestHandler::Root => Some(30),
            TestHandler::Menu => {
                if context.value > 5 {
                    Some(5) // Short timeout when value is high
                } else {
                    Some(10)
                }
            }
            TestHandler::Display => None, // No timeout for display state
            _ => None,
        }
    }
}

// table that picks each state's superstate
fn superstate_table() -> Vec<(u64, u64)> {
    vec![(MENU, ROOT), (SETTINGS, ROOT), (DISPLAY, SETTINGS)]
}

fn create_test_fsm() -> StateMachine<TestContext, TestEvent, TestHandler> {
    let context = TestContext::new();

    StateMachineBuilder::new(context)
        .state(ROOT, TestHandler::Root)
        .state(MENU, TestHandler::Menu)
        .state(SETTINGS, TestHandler::Settings)
        .state(DISPLAY, TestHandler::Display)
        .state(VOLUME, TestHandler::Volume)
        .superstate_fn(superstate_table())
        .build()
}

#[test]
fn test_initialization() {
    let mut fsm = create_test_fsm();

    // Test initial state
    assert_eq!(fsm.current_state(), None);

    // Initialize the FSM
    fsm.init(ROOT).unwrap();

    // Check current state
    assert_eq!(fsm.current_state(), Some(ROOT));

    // Check that on_enter was called
    assert_eq!(fsm.context().entries, vec!["Root"]);
}

#[test]
fn test_basic_transitions() {
    let mut fsm = create_test_fsm();
    fsm.init(ROOT).unwrap();

    // Transition from Root to Menu
    fsm.process_event(&TestEvent::Enter).unwrap();
    assert_eq!(fsm.current_state(), Some(MENU));

    // Check transition tracking
    assert_eq!(fsm.context().transitions, vec!["Root->Menu"]);
    assert_eq!(fsm.context().entries, vec!["Root", "Menu"]);
    assert_eq!(fsm.context().exits, vec!["Root"]);

    // Transition back to Root
    fsm.process_event(&TestEvent::Back).unwrap();
    assert_eq!(fsm.current_state(), Some(ROOT));
    assert_eq!(fsm.context().transitions, vec!["Root->Menu", "Menu->Root"]);
}

#[test]
fn test_event_handling() {
    let mut fsm = create_test_fsm();
    fsm.init(MENU).unwrap();

    // Test handled events
    assert_eq!(fsm.context().value, 0);

    fsm.process_event(&TestEvent::Up).unwrap();
    assert_eq!(fsm.context().value, 1);
    assert_eq!(fsm.current_state(), Some(MENU)); // Should stay in same state

    fsm.process_event(&TestEvent::Down).unwrap();
    assert_eq!(fsm.context().value, 0);
}

#[test]
fn test_superstate_delegation() {
    let mut fsm = create_test_fsm();
    fsm.init(MENU).unwrap();

    // Send an event that Menu doesn't handle (should delegate to Root)
    let result = fsm.process_event(&TestEvent::Timeout);

    // Should get an error because Root doesn't handle Timeout either
    assert!(result.is_err());
    if let Err(FsmError::InvalidEvent(state, msg)) = result {
        assert_eq!(state, ROOT);
        assert!(msg.contains("Root: Unhandled event"));
    }
}

#[test]
fn test_deep_hierarchy() {
    let mut fsm = create_test_fsm();
    fsm.init(DISPLAY).unwrap();

    // Display handles Up/Down
    fsm.process_event(&TestEvent::Up).unwrap();
    assert_eq!(fsm.context().value, 10);
    assert_eq!(fsm.current_state(), Some(DISPLAY));

    // Display doesn't handle Enter, should delegate through Settings to Root
    fsm.process_event(&TestEvent::Enter).unwrap();
    assert_eq!(fsm.current_state(), Some(MENU)); // Root handles Enter -> Menu
}

#[test]
fn test_timeout_functionality() {
    let mut fsm = create_test_fsm();
    fsm.init(ROOT).unwrap();

    // Test timeout for Root state
    let timeout = fsm.get_current_timeout();
    assert_eq!(timeout, Some(30));

    // Transition to Menu
    fsm.process_event(&TestEvent::Enter).unwrap();

    // Test dynamic timeout based on context
    let timeout = fsm.get_current_timeout();
    assert_eq!(timeout, Some(10)); // value is 0, so long timeout

    // Change context value
    fsm.process_event(&TestEvent::Up).unwrap(); // value = 1
    for _ in 0..5 {
        fsm.process_event(&TestEvent::Up).unwrap(); // value = 6
    }

    let timeout = fsm.get_current_timeout();
    assert_eq!(timeout, Some(5)); // value > 5, so short timeout

    // Transition to Display (no timeout)
    fsm.process_event(&TestEvent::Select).unwrap(); // Menu -> Settings
    fsm.process_event(&TestEvent::Select).unwrap(); // Settings -> Display

    let timeout = fsm.get_current_timeout();
    assert_eq!(timeout, None);
}

#[test]
fn test_transition_on_enter() {
    let mut fsm = create_test_fsm();

    // Initialize to Volume state, which transitions to Root on enter
    fsm.init(VOLUME).unwrap();

    // Should end up in Root state, not Volume
    assert_eq!(fsm.current_state(), Some(ROOT));

    // Check that both on_enter hooks ran
    assert!(fsm.context().entries.contains(&"Volume".to_string()));
    assert!(fsm.context().entries.contains(&"Root".to_string()));
}

#[test]
fn test_enter_chain_hooks_observed() {
    let mut fsm = create_test_fsm();

    // Volume's enter hook immediately transitions to Root: both its enter
    // and exit hooks, and Root's enter hook, must be observed to have run.
    fsm.init(VOLUME).unwrap();

    assert_eq!(fsm.current_state(), Some(ROOT));
    assert_eq!(fsm.context().entries, vec!["Volume", "Root"]);
    assert_eq!(fsm.context().exits, vec!["Volume"]);
}

#[test]
fn test_error_conditions() {
    let mut fsm = create_test_fsm();

    // Test processing event without initialization
    let result = fsm.process_event(&TestEvent::Enter);
    assert!(matches!(result, Err(FsmError::StateMachineNotInitialized)));

    // Initialize and test invalid state
    fsm.init(ROOT).unwrap();

    // Test unhandled event in root (should return error)
    let result = fsm.process_event(&TestEvent::Timeout);
    assert!(result.is_err());
}

#[test]
fn test_context_access() {
    let mut fsm = create_test_fsm();
    fsm.init(MENU).unwrap();

    // Test context access
    assert_eq!(fsm.context().value, 0);

    // Modify through event
    fsm.process_event(&TestEvent::Up).unwrap();
    assert_eq!(fsm.context().value, 1);

    // Test mutable context access
    fsm.context_mut().value = 100;
    assert_eq!(fsm.context().value, 100);
}

#[test]
fn test_builder_pattern() {
    let context = TestContext::new();

    // Test builder with minimal setup
    let fsm: StateMachine<TestContext, TestEvent, TestHandler> =
        StateMachineBuilder::new(context).state(ROOT, TestHandler::Root).build();

    assert_eq!(fsm.current_state(), None);

    // Test builder with superstate table
    let context2 = TestContext::new();
    let _fsm2: StateMachine<TestContext, TestEvent, TestHandler> =
        StateMachineBuilder::new(context2)
            .state(ROOT, TestHandler::Root)
            .state(MENU, TestHandler::Menu)
            .superstate_fn(vec![(MENU, ROOT)])
            .build();
}

#[test]
fn test_multiple_transitions() {
    let mut fsm = create_test_fsm();
    fsm.init(ROOT).unwrap();

    // Test a sequence of transitions
    fsm.process_event(&TestEvent::Enter).unwrap(); // Root -> Menu
    fsm.process_event(&TestEvent::Select).unwrap(); // Menu -> Settings
    fsm.process_event(&TestEvent::Select).unwrap(); // Settings -> Display

    assert_eq!(fsm.current_state(), Some(DISPLAY));

    // Check all entries and exits
    let expected_entries = vec!["Root", "Menu", "Settings", "Display"];
    let expected_exits = vec!["Root", "Menu", "Settings"];
    assert_eq!(fsm.context().entries, expected_entries);
    assert_eq!(fsm.context().exits, expected_exits);
}

#[test]
fn test_state_reentry() {
    let mut fsm = create_test_fsm();
    fsm.init(ROOT).unwrap();

    // Go Root -> Menu -> Root -> Menu
    fsm.process_event(&TestEvent::Enter).unwrap(); // Root -> Menu
    fsm.process_event(&TestEvent::Back).unwrap(); // Menu -> Root
    fsm.process_event(&TestEvent::Enter).unwrap(); // Root -> Menu again

    assert_eq!(fsm.current_state(), Some(MENU));

    // Should have multiple entries/exits for the same states
    assert_eq!(fsm.context().entries, vec!["Root", "Menu", "Root", "Menu"]);
    assert_eq!(fsm.context().exits, vec!["Root", "Menu", "Root"]);
}

#[test]
fn test_unique_transitions_only() {
    let mut fsm = create_test_fsm();
    fsm.init(ROOT).unwrap();

    // Perform the same transition multiple times
    fsm.process_event(&TestEvent::Enter).unwrap(); // Root -> Menu
    fsm.process_event(&TestEvent::Back).unwrap(); // Menu -> Root
    fsm.process_event(&TestEvent::Enter).unwrap(); // Root -> Menu (again)
    fsm.process_event(&TestEvent::Back).unwrap(); // Menu -> Root (again)
}

#[test]
fn test_context_modification() {
    let mut fsm = create_test_fsm();
    fsm.init(MENU).unwrap();

    // Test that context modifications persist across events
    fsm.context_mut().value = 42;

    fsm.process_event(&TestEvent::Up).unwrap();
    assert_eq!(fsm.context().value, 43); // 42 + 1

    fsm.process_event(&TestEvent::Down).unwrap();
    assert_eq!(fsm.context().value, 42); // 43 - 1
}

#[test]
fn test_error_propagation() {
    let mut fsm = create_test_fsm();
    fsm.init(ROOT).unwrap();

    // Test that errors from states are properly propagated
    let result = fsm.process_event(&TestEvent::Timeout);

    match result {
        Err(FsmError::InvalidEvent(state, msg)) => {
            assert_eq!(state, ROOT);
            assert!(msg.contains("Root: Unhandled event"));
        }
        _ => panic!("Expected InvalidEvent error"),
    }

    // FSM should still be in a valid state after error
    assert_eq!(fsm.current_state(), Some(ROOT));
}

// Test with a more complex state that uses Arc<Mutex<>> for shared state
#[derive(Debug)]
struct SharedContext {
    pub counter: Arc<Mutex<i32>>,
    pub log: Arc<Mutex<Vec<String>>>,
}

impl SharedContext {
    fn new() -> Self {
        Self {
            counter: Arc::new(Mutex::new(0)),
            log: Arc::new(Mutex::new(Vec::new())),
        }
    }
}

struct SharedState;

impl Stateful<u64, SharedContext, TestEvent> for SharedState {
    fn on_enter(&mut self, context: &mut SharedContext) -> Response<u64> {
        let mut log = context.log.lock().unwrap();
        log.push("SharedState entered".to_string());
        Response::Handled
    }

    fn on_event(&mut self, event: &TestEvent, context: &mut SharedContext) -> Response<u64> {
        match event {
            TestEvent::Up => {
                let mut counter = context.counter.lock().unwrap();
                *counter += 1;
                Response::Handled
            }
            _ => Response::Super,
        }
    }

    fn on_exit(&mut self, context: &mut SharedContext) {
        let mut log = context.log.lock().unwrap();
        log.push("SharedState exited".to_string());
    }

    fn get_timeout(&self, _context: &SharedContext) -> Option<u64> {
        None
    }
}

#[test]
fn test_shared_context() {
    let context = SharedContext::new();
    let counter_clone = Arc::clone(&context.counter);
    let log_clone = Arc::clone(&context.log);

    let mut fsm: StateMachine<SharedContext, TestEvent, SharedState> =
        StateMachineBuilder::new(context).state(ROOT, SharedState).build();

    fsm.init(ROOT).unwrap();

    // Test that shared state works
    fsm.process_event(&TestEvent::Up).unwrap();

    assert_eq!(*counter_clone.lock().unwrap(), 1);

    let log = log_clone.lock().unwrap();
    assert!(log.contains(&"SharedState entered".to_string()));
}

// Benchmark-style test for performance
#[test]
fn test_performance() {
    let mut fsm = create_test_fsm();
    fsm.init(MENU).unwrap();

    let start = std::time::Instant::now();

    // Process many events
    for _ in 0..1000 {
        fsm.process_event(&TestEvent::Up).unwrap();
        fsm.process_event(&TestEvent::Down).unwrap();
    }

    let duration = start.elapsed();
    println!("Processed 2000 events in {:?}", duration);

    // Should still be in correct state
    assert_eq!(fsm.current_state(), Some(MENU));
    assert_eq!(fsm.context().value, 0); // Up and Down should cancel out
}

// Test edge case: state that returns Error response
struct ErrorHandler;

impl Stateful<u64, TestContext, TestEvent> for ErrorHandler {
    fn on_enter(&mut self, _context: &mut TestContext) -> Response<u64> {
        Response::Error("ErrorState always fails on enter".to_string())
    }

    fn on_event(&mut self, _event: &TestEvent, _context: &mut TestContext) -> Response<u64> {
        Response::Error("ErrorState always fails on event".to_string())
    }

    fn on_exit(&mut self, _context: &mut TestContext) {}

    fn get_timeout(&self, _context: &TestContext) -> Option<u64> {
        None
    }
}

#[test]
fn test_error_state() {
    let context = TestContext::new();
    let mut fsm: StateMachine<TestContext, TestEvent, ErrorHandler> =
        StateMachineBuilder::new(context).state(ROOT, ErrorHandler).build();

    // Test that error on enter is handled
    let result = fsm.init(ROOT);
    assert!(result.is_err());

    if let Err(FsmError::StateInvalid(state, msg)) = result {
        assert_eq!(state, ROOT);
        assert!(msg.contains("ErrorState always fails on enter"));
    }
}
