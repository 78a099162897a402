use hsm::{BuilderPair, Composite, Halt, Transit};
use std::cell::{Cell, RefCell};
use std::rc::Rc;

type Score = u32;
type EnterStateScore = u32;
type AppComposite = Composite<AppData>;
type PlayComposite = Composite<AppData>;

type AppTransit = Transit<AppState, Score>;
type AppBuilder = fn(AppComposite, EnterStateScore) -> (AppComposite, Result<AppTransit, AppError>);
type AppBuilderPair = BuilderPair<AppBuilder, EnterStateScore>;
type PlayTransit = Transit<PlayState, AppBuilderPair>;

const BUDGET: usize = 1000;

#[derive(Debug, Clone, PartialEq)]
enum AppError {
    Failure,
}

#[derive(Debug, Clone, PartialEq)]
enum IoEvent {
    Ping,
    Pong,
    Terminate,
    Menu,
    Play,
}

enum AppState {
    Menu(Score),
    Play(Score),
    Terminate(Score),
}

enum PlayState {
    Ping(Score),
    Pong(Score),
}

struct AppData {
    event: Rc<RefCell<std::vec::IntoIter<IoEvent>>>,
}

fn next_event(comp: &AppComposite) -> Option<IoEvent> {
    comp.data.event.borrow_mut().next()
}

fn to_terminate(score: Score) -> AppBuilderPair {
    BuilderPair::new(terminate as AppBuilder, score)
}

fn pong(comp: PlayComposite, score: Score) -> (PlayComposite, Result<PlayTransit, AppError>) {
    let mut score = score + 1;
    while let Some(event) = next_event(&comp) {
        match event {
            IoEvent::Ping => return (comp, Ok(Transit::To(PlayState::Ping(score)))),
            IoEvent::Terminate => return (comp, Ok(Transit::Lift(to_terminate(score)))),
            _ => score += 1,
        }
    }
    (comp, Ok(Transit::Lift(to_terminate(score))))
}

fn ping(comp: PlayComposite, score: Score) -> (PlayComposite, Result<PlayTransit, AppError>) {
    let mut score = score + 1;
    while let Some(event) = next_event(&comp) {
        match event {
            IoEvent::Pong => return (comp, Ok(Transit::To(PlayState::Pong(score)))),
            IoEvent::Terminate => return (comp, Ok(Transit::Lift(to_terminate(score)))),
            _ => score += 1,
        }
    }
    (comp, Ok(Transit::Lift(to_terminate(score))))
}

fn play_state(comp: PlayComposite, state: PlayState) -> (PlayComposite, Result<PlayTransit, AppError>) {
    match state {
        PlayState::Ping(score) => ping(comp, score),
        PlayState::Pong(score) => pong(comp, score),
    }
}

fn terminate(comp: AppComposite, score: Score) -> (AppComposite, Result<AppTransit, AppError>) {
    (comp, Ok(Transit::Lift(score)))
}

fn play(comp: AppComposite, score: Score) -> (AppComposite, Result<AppTransit, AppError>) {
    let event = comp.data.event.clone();
    let child = PlayComposite::new(AppData { event });
    let (_, lifted) = child.init(play_state, PlayState::Ping(score), BUDGET);
    match lifted {
        Ok(pair) => pair.enter(comp),
        Err(Halt::Failed(e)) => (comp, Err(e)),
        Err(Halt::OutOfSteps) => (comp, Err(AppError::Failure)),
    }
}

fn menu(comp: AppComposite, score: Score) -> (AppComposite, Result<AppTransit, AppError>) {
    while let Some(event) = next_event(&comp) {
        match event {
            IoEvent::Play => return (comp, Ok(Transit::To(AppState::Play(score)))),
            IoEvent::Terminate => return (comp, Ok(Transit::Lift(score))),
            _ => continue,
        }
    }
    (comp, Ok(Transit::Lift(score)))
}

fn app_state(comp: AppComposite, state: AppState) -> (AppComposite, Result<AppTransit, AppError>) {
    match state {
        AppState::Menu(score) => menu(comp, score),
        AppState::Play(score) => play(comp, score),
        AppState::Terminate(score) => terminate(comp, score),
    }
}

fn run_game(sequence: Vec<IoEvent>) -> Result<Score, Halt<AppError>> {
    let event = Rc::new(RefCell::new(sequence.into_iter()));
    let app = AppComposite::new(AppData { event });
    let (_, result) = app.init(app_state, AppState::Menu(0), BUDGET);
    result
}

#[test]
fn test_hierarchy_test_game() {
    let sequence = vec![IoEvent::Play, IoEvent::Ping, IoEvent::Pong, IoEvent::Ping, IoEvent::Pong, IoEvent::Terminate];
    let event = Rc::new(RefCell::new(sequence.into_iter()));
    let start_score = 0;
    let app = AppComposite::new(AppData { event });
    let (_, result): (_, Result<Score, Halt<AppError>>) =
        app.init(app_state, AppState::Menu(start_score), BUDGET);
    assert_eq!(Ok(5), result);
}

#[test]
fn terminate_in_menu_lifts_start_score() {
    assert_eq!(Ok(0), run_game(vec![IoEvent::Ping, IoEvent::Menu, IoEvent::Terminate, IoEvent::Play]));
}

#[test]
fn sequence_ending_in_terminate_lifts() {
    assert_eq!(Ok(2), run_game(vec![IoEvent::Play, IoEvent::Menu, IoEvent::Terminate]));
}

#[test]
fn nested_re_entry_gives_identical_results() {
    let sequence = vec![IoEvent::Menu, IoEvent::Play, IoEvent::Pong, IoEvent::Pong, IoEvent::Ping, IoEvent::Terminate];
    let first = run_game(sequence.clone());
    let second = run_game(sequence);
    assert_eq!(Ok(4), first);
    assert_eq!(first, second);
}

type LogComposite = Composite<Vec<u32>>;

fn logging_step(comp: LogComposite, state: u32) -> (LogComposite, Result<Transit<u32, usize>, String>) {
    let mut comp = comp;
    comp.data.push(state);
    if state < 4 {
        (comp, Ok(Transit::To(state + 1)))
    } else {
        let seen = comp.data.len();
        (comp, Ok(Transit::Lift(seen)))
    }
}

#[test]
fn steps_see_every_earlier_write_in_order() {
    let comp = LogComposite::new(vec![]);
    let (back, result) = comp.init(logging_step, 0, BUDGET);
    assert_eq!(Ok(5), result);
    assert_eq!(vec![0, 1, 2, 3, 4], back.data);
}

#[test]
fn error_stops_the_loop_at_once() {
    let calls = Cell::new(0u32);
    let step = |comp: Composite<u32>, state: u32| -> (Composite<u32>, Result<Transit<u32, u32>, AppError>) {
        calls.set(calls.get() + 1);
        let mut comp = comp;
        comp.data += state;
        if state == 2 {
            (comp, Err(AppError::Failure))
        } else {
            (comp, Ok(Transit::To(state + 1)))
        }
    };
    let (back, result) = Composite::new(10u32).init(step, 0, BUDGET);
    assert_eq!(Err(Halt::Failed(AppError::Failure)), result);
    assert_eq!(3, calls.get());
    assert_eq!(13, back.data);
}

fn probe(comp: LogComposite, arg: u32) -> (LogComposite, Result<Transit<u32, u32>, String>) {
    let mut comp = comp;
    comp.data.push(arg);
    (comp, Ok(Transit::Lift(arg * 2)))
}

#[test]
fn lifted_pair_resumes_parent_with_its_argument() {
    let child = |comp: Composite<()>, state: u32| -> (Composite<()>, Result<Transit<u32, BuilderPair<fn(LogComposite, u32) -> (LogComposite, Result<Transit<u32, u32>, String>), u32>>, String>) {
        if state < 3 {
            (comp, Ok(Transit::To(state + 1)))
        } else {
            (comp, Ok(Transit::Lift(BuilderPair::new(probe as fn(LogComposite, u32) -> (LogComposite, Result<Transit<u32, u32>, String>), 40 + state))))
        }
    };
    let (_, lifted) = Composite::new(()).init(child, 0, BUDGET);
    let pair = match lifted {
        Ok(pair) => pair,
        Err(_) => panic!("child composite did not lift"),
    };
    assert_eq!(43, pair.arg);
    let (parent, transit) = pair.enter(LogComposite::new(vec![7]));
    assert_eq!(vec![7, 43], parent.data);
    match transit {
        Ok(Transit::Lift(v)) => assert_eq!(86, v),
        _ => panic!("builder's state did not run"),
    }
}

#[test]
fn new_composite_owns_its_data() {
    let comp = Composite::new(vec![1u8, 2, 3]);
    assert_eq!(vec![1u8, 2, 3], comp.data);
}
