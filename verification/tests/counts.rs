use lib::avian::{self, fill_rank_and_count, AvianFilter, SplitMix64, GATHER_COUNT_KEY, RANK_KEY};
use lib::target::Target;
use lib::filters::{self, sample_at_most, NumberType, RandomSource};
use lib::invoke::{check_should_reinvoke_ability, InvocationComplete, InvokeStatus};
use lib::component::ComponentMap;
use lib::relation::Relation;
use lib::repeater::{repeater_tick, RepeatAction, Repeater, RepeaterMessage};

#[test]
fn splitmix_matches_reference_outputs() {
    let mut g = SplitMix64::from_seed(0);
    assert_eq!(g.next_u64(), 16294208416658607535);
    assert_eq!(g.next_u64(), 7960286522194355700);
    assert_eq!(g.next_u64(), 487617019471545679);
    let mut d = SplitMix64::default();
    assert_eq!(d.next_u64(), 16445019397944039);
    assert_eq!(d.next_u32(), 1461119046);
}

#[test]
fn number_type_resolve_fixed_and_random() {
    let mut g = SplitMix64::from_seed(0);
    assert_eq!(NumberType::Fixed(4).resolve(&mut g), 4);
    // A degenerate range draws nothing.
    assert_eq!(NumberType::Random(3, 3).resolve(&mut g), 3);
    assert_eq!(NumberType::Random(6, 2).resolve(&mut g), 6);
    // Still the first draw of the seed: 2 + w % 4.
    assert_eq!(NumberType::Random(2, 5).resolve(&mut g), 5);
    for _ in 0..50 {
        let n = NumberType::Random(1, 3).resolve(&mut g);
        assert!((1..=3).contains(&n));
    }
}

#[test]
fn reservoir_sampling_limits_count() {
    let items: Vec<u32> = (0..6).collect();
    let mut g = SplitMix64::from_seed(0);
    let r = filters::limit_count(items.clone(), &NumberType::Fixed(2), &mut g);
    assert_eq!(r, vec![3, 2]);
    // At most `max` items pass unchanged, without drawing.
    let mut g = SplitMix64::from_seed(0);
    let r = sample_at_most(items.clone(), 10, &mut g);
    assert_eq!(r, items);
    assert_eq!(g.next_u64(), 16294208416658607535);
    // A drawn count, then reservoir sampling with the following draws.
    let mut g = SplitMix64::from_seed(7);
    let r = filters::limit_count(items.clone(), &NumberType::Random(1, 3), &mut g);
    assert_eq!(r, vec![2]);
    let mut g = SplitMix64::from_seed(5);
    let r = sample_at_most(items.clone(), 0, &mut g);
    assert!(r.is_empty());
}

#[test]
fn avian_number_type_and_filter() {
    let mut g = SplitMix64::default();
    assert_eq!(avian::NumberType::default().resolve_limit(&mut g), None);
    assert_eq!(avian::NumberType::Fixed(2).resolve_count(&mut g), 2);
    assert_eq!(avian::NumberType::Random { min: 3, max: 3 }.resolve_count(&mut g), 3);
    assert_eq!(avian::NumberType::Random { min: 1, max: 4 }.resolve_limit(&mut g), Some(4));
    let f = AvianFilter::default();
    assert!(matches!(f.count, avian::NumberType::All));
    assert!(!f.line_of_sight);
    let items: Vec<u32> = (0..6).collect();
    let mut g = SplitMix64::from_seed(0);
    assert_eq!(avian::limit_count(items.clone(), &avian::NumberType::All, &mut g), items);
    assert_eq!(avian::limit_count(items.clone(), &avian::NumberType::Fixed(2), &mut g), vec![3, 2]);
}

#[test]
fn repeater_fires_count_times_then_done() {
    let mut r = Repeater::new(3);
    assert_eq!(r.tick(true), RepeatAction::Repeat);
    assert_eq!(r.remaining, 2);
    assert_eq!(r.tick(false), RepeatAction::Repeat);
    assert_eq!(r.tick(false), RepeatAction::Repeat);
    assert_eq!(r.tick(false), RepeatAction::Done);
    // Exhausted: reset for the next entry.
    assert_eq!(r.remaining, 3);
    assert_eq!(r.initial, 3);
}

#[test]
fn repeater_tick_messages() {
    let mut substates = Relation::new();
    substates.relate(5, 4); // repeater 5 inside Invoking 4
    substates.relate(4, 1); // Invoking inside the ability 1
    let mut r = Repeater::new(1);
    assert_eq!(
        repeater_tick(&mut r, 5, true, &substates),
        RepeaterMessage::OnRepeat { entity: 5, root: 1 }
    );
    assert_eq!(repeater_tick(&mut r, 5, false, &substates), RepeaterMessage::Done { machine: 4 });
    // A repeater without superstate reports Done to itself.
    let mut r = Repeater::new(1);
    let empty = Relation::new();
    repeater_tick(&mut r, 9, true, &empty);
    assert_eq!(repeater_tick(&mut r, 9, false, &empty), RepeaterMessage::Done { machine: 9 });
}

#[test]
fn invoke_reinvokes_held_abilities_only() {
    let mut status: ComponentMap<InvokeStatus> = ComponentMap::new();
    status.insert(1, InvokeStatus::TryInvoke);
    status.insert(2, InvokeStatus::default());
    assert_eq!(check_should_reinvoke_ability(&vec![1, 2, 3, 1], &status), vec![1, 1]);
    let done = InvocationComplete { target: 7 };
    assert_eq!(done.target, 7);
}

struct Counter(u64);

impl RandomSource for Counter {
    fn spec_next(&self) -> (Self, u64) {
        (Counter(self.0 + 1), self.0 + 1)
    }

    fn next_u64(&mut self) -> u64 {
        self.0 += 1;
        self.0
    }
}

#[test]
fn filters_work_with_any_random_source() {
    let mut c = Counter(0);
    // 10 + (1 % 3) = 11
    assert_eq!(NumberType::Random(10, 12).resolve(&mut c), 11);
    // Items 0..4 into 1 slot: draws 2, 3, 4 give slots 2 % 2, 3 % 3, 4 % 4.
    let mut c = Counter(1);
    assert_eq!(sample_at_most(vec![0, 1, 2, 3], 1, &mut c), vec![3]);
}

#[test]
fn splitmix_fill_bytes_little_endian_words() {
    let mut g = SplitMix64::from_seed(0);
    let mut buf = [0u8; 10];
    g.fill_bytes(&mut buf);
    assert_eq!(buf, [175, 205, 29, 123, 57, 168, 32, 226, 244, 101]);
    // Two words were drawn: the next one is the third.
    assert_eq!(g.next_u64(), 487617019471545679);
    let mut empty: [u8; 0] = [];
    let mut g = SplitMix64::from_seed(0);
    g.fill_bytes(&mut empty);
    assert_eq!(g.next_u64(), 16294208416658607535);
}

#[test]
fn gathered_targets_get_rank_and_count() {
    let mut targets: Vec<(Target<i64>, Vec<(&'static str, f32)>)> = vec![
        (Target::entity(4, 1), vec![("Distance@scope", 1.5), (RANK_KEY, 0.0), (GATHER_COUNT_KEY, 0.0)]),
        (Target::entity(5, 2), vec![(RANK_KEY, 0.0), ("Radius@scope", 3.0)]),
    ];
    fill_rank_and_count(&mut targets, &vec![0.0, 1.0], 2.0);
    assert_eq!(targets[0].1, vec![("Distance@scope", 1.5), ("Rank@scope", 0.0), ("GatherCount@scope", 2.0)]);
    assert_eq!(targets[1].1, vec![("Rank@scope", 1.0), ("Radius@scope", 3.0)]);
    assert_eq!(targets[1].0.entity, Some(5));
}
