use edge_mux::drive::Driver;
use edge_mux::level::Level;
use edge_mux::line::LineRegistry;
use edge_mux::mux::{Mux, RoundResult};
use edge_mux::pair::Pairing;
use edge_mux::watch::Watcher;

/// Platform bring-up for a two-line board: lines 0 and 1 are inputs at
/// the given initial levels, lines 2 and 3 are outputs starting low.
fn two_line_mux(a: Level, b: Level) -> Mux {
    let mut reg = LineRegistry::new(4);
    let ha = reg.issue(0).unwrap();
    let hb = reg.issue(1).unwrap();
    let hc = reg.issue(2).unwrap();
    let hd = reg.issue(3).unwrap();
    let pa = Pairing::new(Watcher::new(ha, a), Driver::new(hc, Level::Low));
    let pb = Pairing::new(Watcher::new(hb, b), Driver::new(hd, Level::Low));
    Mux::try_new(vec![pa, pb]).unwrap()
}

#[test]
fn registry_issues_each_line_once() {
    let mut reg = LineRegistry::new(2);
    let first = reg.issue(0);
    assert!(first.is_some());
    assert_eq!(first.unwrap().id(), 0);
    assert!(reg.issue(0).is_none());
    assert!(reg.issue(1).is_some());
    assert!(reg.issue(2).is_none());
}

#[test]
fn rejects_shared_input_line() {
    // Two registries can hand out aliasing identifiers; the multiplexer
    // refuses the configuration at construction time.
    let mut reg1 = LineRegistry::new(4);
    let mut reg2 = LineRegistry::new(4);
    let pa = Pairing::new(
        Watcher::new(reg1.issue(0).unwrap(), Level::Low),
        Driver::new(reg1.issue(2).unwrap(), Level::Low),
    );
    let pb = Pairing::new(
        Watcher::new(reg2.issue(0).unwrap(), Level::Low),
        Driver::new(reg2.issue(3).unwrap(), Level::Low),
    );
    assert!(Mux::try_new(vec![pa, pb]).is_none());
}

#[test]
fn rejects_shared_output_line() {
    let mut reg1 = LineRegistry::new(4);
    let mut reg2 = LineRegistry::new(4);
    let pa = Pairing::new(
        Watcher::new(reg1.issue(0).unwrap(), Level::Low),
        Driver::new(reg1.issue(2).unwrap(), Level::Low),
    );
    let pb = Pairing::new(
        Watcher::new(reg2.issue(1).unwrap(), Level::Low),
        Driver::new(reg2.issue(2).unwrap(), Level::Low),
    );
    assert!(Mux::try_new(vec![pa, pb]).is_none());
}

#[test]
fn accepts_distinct_lines() {
    let m = two_line_mux(Level::Low, Level::Low);
    assert_eq!(m.pairs.len(), 2);
}

#[test]
fn set_level_idempotent() {
    let mut reg = LineRegistry::new(2);
    let mut once = Driver::new(reg.issue(0).unwrap(), Level::Low);
    let mut twice = Driver::new(reg.issue(1).unwrap(), Level::Low);
    once.set_level(Level::High);
    twice.set_level(Level::High);
    twice.set_level(Level::High);
    assert_eq!(once.commanded_level(), Level::High);
    assert_eq!(twice.commanded_level(), Level::High);
}

#[test]
fn watcher_level_flips_on_each_edge() {
    let mut reg = LineRegistry::new(1);
    let mut w = Watcher::new(reg.issue(0).unwrap(), Level::High);
    assert_eq!(w.current_level(), Level::High);
    w.inject_edge();
    assert_eq!(w.current_level(), Level::Low);
    w.inject_edge();
    assert_eq!(w.current_level(), Level::High);
}

#[test]
fn step_reports_nothing_without_edges() {
    let mut m = two_line_mux(Level::Low, Level::Low);
    assert_eq!(m.step(), None);
    assert_eq!(m.step(), None);
}

#[test]
fn tie_break_lowest_index_wins() {
    // Both watchers become ready in the same scheduling quantum; the
    // winner is the lower index, on every run.
    for _ in 0..10 {
        let mut m = two_line_mux(Level::Low, Level::Low);
        m.inject_edge(0);
        m.inject_edge(1);
        let r = m.step().unwrap();
        assert_eq!(r.winner, 0);
        assert_eq!(r.value, Level::High);
    }
}

#[test]
fn abandoned_wait_is_not_lost() {
    // The loser of a round keeps its latched edge and wins the next
    // round without a new edge.
    let mut m = two_line_mux(Level::Low, Level::Low);
    m.inject_edge(0);
    m.inject_edge(1);
    let first = m.step().unwrap();
    assert_eq!(first.winner, 0);
    let second = m.step().unwrap();
    assert_eq!(second.winner, 1);
    assert_eq!(second.value, Level::High);
    assert_eq!(m.step(), None);
}

#[test]
fn two_line_scenario() {
    // Line 0 starts high, line 1 starts low.  An edge on line 0 yields
    // {winner: 0, value: low}; an edge on line 1 then yields
    // {winner: 1, value: high}; the outputs are set to low and high
    // respectively, in that order.
    let mut m = two_line_mux(Level::High, Level::Low);
    m.inject_edge(0);
    let r1 = m.step();
    assert_eq!(r1, Some(RoundResult { winner: 0, value: Level::Low }));
    assert_eq!(m.pairs[0].driver.commanded_level(), Level::Low);
    m.inject_edge(1);
    let r2 = m.step();
    assert_eq!(r2, Some(RoundResult { winner: 1, value: Level::High }));
    assert_eq!(m.pairs[0].driver.commanded_level(), Level::Low);
    assert_eq!(m.pairs[1].driver.commanded_level(), Level::High);
}

#[test]
fn every_event_is_delivered_in_order_per_line() {
    // Three lines; edges on lines 2 and 0 are latched, then served in
    // index order, one output-set call per event with the matching
    // level.
    let mut reg = LineRegistry::new(6);
    let mut pairs = Vec::new();
    for i in 0..3 {
        pairs.push(Pairing::new(
            Watcher::new(reg.issue(i).unwrap(), Level::Low),
            Driver::new(reg.issue(i + 3).unwrap(), Level::Low),
        ));
    }
    let mut m = Mux::try_new(pairs).unwrap();
    m.inject_edge(2);
    m.inject_edge(0);
    let r1 = m.step().unwrap();
    assert_eq!(r1.winner, 0);
    assert_eq!(r1.value, Level::High);
    assert_eq!(m.pairs[0].driver.commanded_level(), Level::High);
    assert_eq!(m.pairs[2].driver.commanded_level(), Level::Low);
    let r2 = m.step().unwrap();
    assert_eq!(r2.winner, 2);
    assert_eq!(r2.value, Level::High);
    assert_eq!(m.pairs[2].driver.commanded_level(), Level::High);
    assert_eq!(m.pairs[1].driver.commanded_level(), Level::Low);
    assert_eq!(m.step(), None);
}

#[test]
fn no_starvation_under_equal_frequency() {
    // A fixed interleaving generator fires one edge on each line per
    // quantum; over the run, each line wins the same number of rounds.
    let mut m = two_line_mux(Level::Low, Level::Low);
    let mut wins = [0u32; 2];
    for _ in 0..8 {
        m.inject_edge(0);
        m.inject_edge(1);
        for _ in 0..2 {
            let r = m.step().unwrap();
            wins[r.winner] += 1;
        }
    }
    assert_eq!(wins[0], 8);
    assert_eq!(wins[1], 8);
}

#[test]
fn single_line_variant() {
    // One input paired with one output: the selector degenerates to a
    // plain wait-read-set loop.
    let mut reg = LineRegistry::new(2);
    let p = Pairing::new(
        Watcher::new(reg.issue(0).unwrap(), Level::High),
        Driver::new(reg.issue(1).unwrap(), Level::High),
    );
    let mut m = Mux::try_new(vec![p]).unwrap();
    m.inject_edge(0);
    let r = m.step().unwrap();
    assert_eq!(r, RoundResult { winner: 0, value: Level::Low });
    assert_eq!(m.pairs[0].driver.commanded_level(), Level::Low);
    assert_eq!(m.step(), None);
}

#[test]
fn empty_set_of_pairings() {
    let mut m = Mux::try_new(Vec::new()).unwrap();
    assert_eq!(m.step(), None);
}

#[test]
fn no_line_is_double_watched() {
    // Instrumented invariant check: however the loop is driven, no line
    // ever carries more than one armed wait.
    let mut m = two_line_mux(Level::Low, Level::High);
    for id in 0..4 {
        assert!(m.armed_watch_count(id) <= 1);
    }
    m.step();
    for id in 0..4 {
        assert!(m.armed_watch_count(id) <= 1);
    }
    assert_eq!(m.armed_watch_count(0), 1);
    assert_eq!(m.armed_watch_count(1), 1);
    assert_eq!(m.armed_watch_count(2), 0);
    m.inject_edge(0);
    m.step();
    for id in 0..4 {
        assert!(m.armed_watch_count(id) <= 1);
    }
}
