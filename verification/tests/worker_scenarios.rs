use std::cell::RefCell;
use std::rc::Rc;
use timely_worker::Activations;
use timely_worker::Allocate;
use timely_worker::AsWorker;
use timely_worker::ChannelEvent;
use timely_worker::Logger;
use timely_worker::Schedule;
use timely_worker::Worker;

type EventQueue = Rc<RefCell<Vec<(usize, ChannelEvent)>>>;

struct TestAllocator {
    index: usize,
    peers: usize,
    queued: EventQueue,
    allocated: Rc<RefCell<Vec<usize>>>,
    released: Rc<RefCell<usize>>,
}

impl Allocate for TestAllocator {
    type Pusher = usize;
    type Puller = usize;
    type ThreadPusher = usize;
    type ThreadPuller = usize;

    fn index(&self) -> usize {
        self.index
    }

    fn peers(&self) -> usize {
        self.peers
    }

    fn allocate(&mut self, identifier: usize) -> (Vec<usize>, usize) {
        self.allocated.borrow_mut().push(identifier);
        (vec![identifier; self.peers], identifier)
    }

    fn pipeline(&mut self, identifier: usize) -> (usize, usize) {
        self.allocated.borrow_mut().push(identifier);
        (identifier, identifier)
    }

    fn receive(&mut self) {}

    fn drain_events(&mut self) -> Vec<(usize, ChannelEvent)> {
        self.queued.borrow_mut().drain(..).collect()
    }

    fn release(&mut self) {
        *self.released.borrow_mut() += 1;
    }
}

type Journal = Rc<RefCell<Vec<String>>>;

struct Probe {
    name: &'static str,
    lives: usize,
    consume: Option<Vec<usize>>,
    taken: Rc<RefCell<Vec<Vec<usize>>>>,
    journal: Journal,
}

impl Probe {
    fn plain(name: &'static str, lives: usize, journal: &Journal) -> Probe {
        Probe {
            name,
            lives,
            consume: None,
            taken: Rc::new(RefCell::new(Vec::new())),
            journal: journal.clone(),
        }
    }
}

impl Schedule for Probe {
    fn schedule(&mut self, activations: &mut Activations) -> bool {
        self.journal.borrow_mut().push(format!("schedule {}", self.name));
        if let Some(prefix) = &self.consume {
            let got = activations.take_extensions(prefix.as_slice());
            self.taken.borrow_mut().extend(got);
        }
        if self.lives == 0 {
            false
        } else {
            self.lives -= 1;
            true
        }
    }

    fn get_internal_summary(&mut self) {}

    fn set_external_summary(&mut self) {}
}

impl Drop for Probe {
    fn drop(&mut self) {
        self.journal.borrow_mut().push(format!("drop operator {}", self.name));
    }
}

#[derive(Default)]
struct ResProbe {
    name: &'static str,
    journal: Journal,
}

impl Drop for ResProbe {
    fn drop(&mut self) {
        if !self.name.is_empty() {
            self.journal.borrow_mut().push(format!("drop resources {}", self.name));
        }
    }
}

#[derive(Clone, Default)]
struct TestLogger {
    flushes: Rc<RefCell<usize>>,
}

impl Logger for TestLogger {
    fn flush(&mut self) {
        *self.flushes.borrow_mut() += 1;
    }
}

type TestWorker = Worker<TestAllocator, Probe, ResProbe, TestLogger>;

fn new_worker(index: usize, peers: usize) -> (TestWorker, EventQueue) {
    let queued: EventQueue = Rc::new(RefCell::new(Vec::new()));
    let allocator = TestAllocator {
        index,
        peers,
        queued: queued.clone(),
        allocated: Rc::new(RefCell::new(Vec::new())),
        released: Rc::new(RefCell::new(0)),
    };
    (Worker::new(allocator), queued)
}

fn mint_two<W: AsWorker>(w: &mut W) -> (usize, usize) {
    (w.new_identifier(), w.new_identifier())
}

#[test]
fn empty_worker_step_and_identifiers() {
    let (mut w, _queued) = new_worker(0, 1);
    assert!(!w.step());
    assert_eq!(w.new_identifier(), 0);
    assert_eq!(w.new_identifier(), 1);
}

#[test]
fn index_and_peers_are_the_allocators() {
    let (w, _queued) = new_worker(2, 5);
    assert_eq!(w.index(), 2);
    assert_eq!(w.peers(), 5);
    let later = w.timer().elapsed();
    assert!(later.as_secs() < 3600);
}

#[test]
fn identifiers_are_consecutive_from_zero() {
    let (mut w, _queued) = new_worker(0, 1);
    for expected in 0..5 {
        assert_eq!(w.new_identifier(), expected);
    }
}

#[test]
fn identifier_counter_survives_channel_allocation() {
    let (mut w, _queued) = new_worker(0, 1);
    for expected in 0..4 {
        assert_eq!(w.new_identifier(), expected);
    }
    let _exchange = w.allocate(0, &[0, 1]);
    let _pipe = w.pipeline(1, &[0, 2]);
    assert_eq!(w.new_identifier(), 4);
}

#[test]
fn channels_register_their_paths() {
    let (mut w, _queued) = new_worker(0, 1);
    let _a = w.allocate(0, &[0, 5]);
    let _b = w.allocate(2, &[0, 7]);
    let _c = w.pipeline(1, &[0, 6]);
    assert_eq!(w.paths_len(), 3);
    assert_eq!(w.path_of(0), vec![0, 5]);
    assert_eq!(w.path_of(1), vec![0, 6]);
    assert_eq!(w.path_of(2), vec![0, 7]);
}

#[test]
fn late_allocation_leaves_earlier_entries_untouched() {
    let (mut w, _queued) = new_worker(0, 1);
    let _a = w.allocate(1, &[0, 3]);
    assert_eq!(w.paths_len(), 2);
    assert_eq!(w.path_of(0), Vec::<usize>::new());
    let _b = w.allocate(4, &[0, 9]);
    assert_eq!(w.paths_len(), 5);
    assert_eq!(w.path_of(1), vec![0, 3]);
    assert_eq!(w.path_of(3), Vec::<usize>::new());
    assert_eq!(w.path_of(4), vec![0, 9]);
}

#[test]
fn trivial_dataflow_retired_in_its_first_step() {
    let (mut w, _queued) = new_worker(0, 1);
    let journal: Journal = Rc::new(RefCell::new(Vec::new()));
    let probe = Probe::plain("a", 0, &journal);
    let resources = ResProbe { name: "a", journal: journal.clone() };
    w.dataflow_using(resources, move |v: ResProbe, _idx: usize, _addr: Vec<usize>, _log: Option<TestLogger>| {
        (probe, v, ())
    });
    assert_eq!(w.num_dataflows(), 1);
    assert!(!w.step());
    assert_eq!(w.num_dataflows(), 0);
    let entries = journal.borrow().clone();
    assert_eq!(
        entries,
        vec![
            "schedule a".to_string(),
            "drop operator a".to_string(),
            "drop resources a".to_string(),
        ]
    );
}

#[test]
fn dataflows_scheduled_in_insertion_order() {
    let (mut w, _queued) = new_worker(0, 1);
    let journal: Journal = Rc::new(RefCell::new(Vec::new()));
    for name in ["a", "b", "c"] {
        let probe = Probe::plain(name, 1, &journal);
        w.dataflow_using(
            ResProbe::default(),
            move |v: ResProbe, _idx: usize, _addr: Vec<usize>, _log: Option<TestLogger>| {
                (probe, v, ())
            },
        );
    }
    assert!(w.step());
    let entries = journal.borrow().clone();
    assert_eq!(
        entries,
        vec!["schedule a".to_string(), "schedule b".to_string(), "schedule c".to_string()]
    );
}

#[test]
fn channel_event_activates_the_registered_operator() {
    let (mut w, queued) = new_worker(0, 1);
    let journal: Journal = Rc::new(RefCell::new(Vec::new()));
    let taken: Rc<RefCell<Vec<Vec<usize>>>> = Rc::new(RefCell::new(Vec::new()));
    let probe = Probe {
        name: "op",
        lives: 2,
        consume: Some(vec![0, 1]),
        taken: taken.clone(),
        journal: journal.clone(),
    };
    w.dataflow_using(
        ResProbe::default(),
        move |v: ResProbe, _idx: usize, _addr: Vec<usize>, _log: Option<TestLogger>| {
            (probe, v, ())
        },
    );
    let _channel = w.allocate(7, &[0, 1]);
    queued.borrow_mut().push((7, ChannelEvent::Pushed(1)));
    assert!(w.step());
    let schedules = journal.borrow().iter().filter(|e| e.starts_with("schedule")).count();
    assert_eq!(schedules, 1);
    assert_eq!(taken.borrow().clone(), vec![vec![0, 1]]);
    assert_eq!(w.activations().len(), 0);
}

#[test]
fn step_without_dataflows_only_drains_events() {
    let (mut w, queued) = new_worker(0, 1);
    let _channel = w.allocate(0, &[0, 9]);
    queued.borrow_mut().push((0, ChannelEvent::Pushed(2)));
    queued.borrow_mut().push((0, ChannelEvent::Pulled(2)));
    assert!(!w.step());
    assert_eq!(w.paths_len(), 1);
    assert_eq!(w.path_of(0), vec![0, 9]);
    assert_eq!(w.activations().len(), 1);
    assert_eq!(w.activations().addr_at(0), &vec![0, 9]);
}

#[test]
fn resources_outlive_the_operator_until_retirement() {
    let (mut w, _queued) = new_worker(0, 1);
    let journal: Journal = Rc::new(RefCell::new(Vec::new()));
    let probe = Probe::plain("r", 1, &journal);
    let resources = ResProbe { name: "r", journal: journal.clone() };
    w.dataflow_using(resources, move |v: ResProbe, _idx: usize, _addr: Vec<usize>, _log: Option<TestLogger>| {
        (probe, v, ())
    });
    assert!(w.step());
    assert!(journal.borrow().iter().all(|e| !e.starts_with("drop")));
    assert!(!w.step());
    let entries = journal.borrow().clone();
    assert_eq!(
        entries,
        vec![
            "schedule r".to_string(),
            "schedule r".to_string(),
            "drop operator r".to_string(),
            "drop resources r".to_string(),
        ]
    );
}

#[test]
fn dataflow_builder_sees_index_and_root_address() {
    let (mut w, _queued) = new_worker(3, 4);
    let journal: Journal = Rc::new(RefCell::new(Vec::new()));
    let seen: Rc<RefCell<Vec<(usize, Vec<usize>)>>> = Rc::new(RefCell::new(Vec::new()));
    for expected_index in 0..2usize {
        let probe = Probe::plain("d", 0, &journal);
        let seen_inner = seen.clone();
        let forwarded = w.dataflow(move |idx: usize, addr: Vec<usize>, _log: Option<TestLogger>| {
            seen_inner.borrow_mut().push((idx, addr));
            (probe, 40 + expected_index)
        });
        assert_eq!(forwarded, 40 + expected_index);
    }
    assert_eq!(seen.borrow().clone(), vec![(0, vec![3]), (1, vec![3])]);
}

#[test]
fn logging_handle_is_fetched_and_flushed() {
    let (mut w, _queued) = new_worker(0, 1);
    assert!(w.logging().is_none());
    let flushes: Rc<RefCell<usize>> = Rc::new(RefCell::new(0));
    w.log_register("timely".to_string(), TestLogger { flushes: flushes.clone() });
    assert!(w.logging().is_some());
    assert!(!w.step());
    assert!(*flushes.borrow() >= 1);
}

#[test]
fn step_while_checks_the_predicate_before_each_step() {
    let (mut w, _queued) = new_worker(0, 1);
    let evaluations: Rc<RefCell<usize>> = Rc::new(RefCell::new(0));
    let counter = evaluations.clone();
    w.step_while(
        move || {
            let mut seen = counter.borrow_mut();
            *seen += 1;
            *seen <= 3
        },
        100,
    );
    assert_eq!(*evaluations.borrow(), 4);
}

#[test]
fn as_worker_surface_forwards_to_the_root() {
    let (mut w, _queued) = new_worker(0, 1);
    assert_eq!(mint_two(&mut w), (0, 1));
    let _channel = AsWorker::allocate(&mut w, 2, &[0, 4]);
    assert_eq!(w.paths_len(), 3);
    assert_eq!(w.path_of(2), vec![0, 4]);
}

#[test]
fn substrate_released_once_per_step() {
    let queued: EventQueue = Rc::new(RefCell::new(Vec::new()));
    let released: Rc<RefCell<usize>> = Rc::new(RefCell::new(0));
    let allocator = TestAllocator {
        index: 0,
        peers: 1,
        queued: queued.clone(),
        allocated: Rc::new(RefCell::new(Vec::new())),
        released: released.clone(),
    };
    let mut w: TestWorker = Worker::new(allocator);
    assert!(!w.step());
    assert!(!w.step());
    assert_eq!(*released.borrow(), 2);
}

#[test]
fn log_register_shadows_by_name() {
    let (mut w, _queued) = new_worker(0, 1);
    let first: Rc<RefCell<usize>> = Rc::new(RefCell::new(0));
    let second: Rc<RefCell<usize>> = Rc::new(RefCell::new(0));
    w.log_register("timely".to_string(), TestLogger { flushes: first.clone() });
    w.log_register("timely".to_string(), TestLogger { flushes: second.clone() });
    let mut handle = w.logging().unwrap();
    handle.flush();
    assert_eq!(*second.borrow(), 1);
    assert_eq!(*first.borrow(), 0);
}

#[test]
fn registry_keeps_other_names_apart() {
    let (mut w, _queued) = new_worker(0, 1);
    let timely: Rc<RefCell<usize>> = Rc::new(RefCell::new(0));
    w.log_register("other".to_string(), TestLogger::default());
    assert!(w.logging().is_none());
    w.log_register("timely".to_string(), TestLogger { flushes: timely.clone() });
    assert!(w.logging().is_some());
    assert!(!w.step());
    assert!(*timely.borrow() >= 1);
}

#[test]
fn events_for_unregistered_channels_are_dropped() {
    let (mut w, queued) = new_worker(0, 1);
    let _channel = w.allocate(2, &[0, 1]);
    queued.borrow_mut().push((0, ChannelEvent::Pushed(1)));
    queued.borrow_mut().push((9, ChannelEvent::Pushed(1)));
    queued.borrow_mut().push((2, ChannelEvent::Pushed(1)));
    assert!(!w.step());
    assert_eq!(w.activations().len(), 1);
    assert_eq!(w.activations().addr_at(0), &vec![0, 1]);
}
