use profile_json_refs::sketch::hll::HyperLogLog;
use profile_json_refs::sketch::priority::PrioritySampler;
use profile_json_refs::sketch::space_saving::SpaceSaving;
use profile_json_refs::util::hash::{stable_hex, stable_u64};

#[test]
fn space_saving_keeps_bounded_heavy_hitter_candidates() {
    let mut sketch = SpaceSaving::new(2);

    for value in ["hot", "hot", "hot", "warm", "hot", "cold", "hot"] {
        sketch.observe(value.to_string());
    }

    let top = sketch.top();
    assert!(top.len() <= 2);
    assert_eq!(top[0].0, "hot");
    assert!(top[0].1.count >= 5);
}

#[test]
fn priority_sampler_reports_admission_before_materialization() {
    let mut sampler = PrioritySampler::new(2);

    assert!(sampler.should_accept(20));
    sampler.push(20, "twenty");
    assert!(sampler.should_accept(10));
    sampler.push(10, "ten");
    assert!(sampler.should_accept(5));
    assert!(!sampler.should_accept(30));
}

#[test]
fn priority_sampler_keeps_the_smallest_priorities_ranked() {
    let mut sampler = PrioritySampler::new(2);
    for (priority, value) in [(20, "twenty"), (10, "ten"), (5, "five"), (30, "thirty")] {
        if sampler.should_accept(priority) {
            sampler.push(priority, value);
        }
    }
    assert_eq!(sampler.len(), 2);
    let ranked = sampler.ranked();
    assert_eq!(ranked.len(), 2);
    assert_eq!((ranked[0].rank, ranked[0].priority, ranked[0].value), (1, 5, "five"));
    assert_eq!((ranked[1].rank, ranked[1].priority, ranked[1].value), (2, 10, "ten"));

    sampler.clear();
    assert_eq!(sampler.len(), 0);
}

#[test]
fn priority_sampler_with_no_room_takes_nothing() {
    let mut sampler = PrioritySampler::new(0);
    assert!(!sampler.should_accept(0));
    sampler.push(0, "zero");
    assert_eq!(sampler.len(), 0);
}

#[test]
fn space_saving_counts_exactly_below_its_limit() {
    let mut sketch = SpaceSaving::new(3);
    for value in ["a", "b", "a", "c", "a", "b"] {
        sketch.observe(value.to_string());
    }
    let top = sketch.top();
    let counts: Vec<(String, u64, u64)> =
        top.iter().map(|(key, counter)| (key.clone(), counter.count, counter.error)).collect();
    assert_eq!(
        counts,
        vec![("a".to_string(), 3, 0), ("b".to_string(), 2, 0), ("c".to_string(), 1, 0)]
    );
    assert!(sketch.contains_key(&"c".to_string()));
    assert!(!sketch.contains_key(&"d".to_string()));
}

#[test]
fn space_saving_replacement_inherits_the_evicted_count_as_error() {
    let mut sketch = SpaceSaving::new(1);
    sketch.observe("old".to_string());
    sketch.observe("old".to_string());
    sketch.observe("new".to_string());
    let top = sketch.top();
    assert_eq!(top.len(), 1);
    assert_eq!(top[0].0, "new");
    assert_eq!((top[0].1.count, top[0].1.error), (3, 2));
}

#[test]
fn hyperloglog_registers_only_grow_and_ignore_repeats() {
    let mut hll = HyperLogLog::new(10);
    assert_eq!(hll.precision(), 10);
    assert_eq!(hll.registers().len(), 1024);
    assert!(hll.registers().iter().all(|register| *register == 0));

    let mut previous = hll.registers().clone();
    for value in 0..100 {
        hll.insert_hash(stable_u64(value.to_string().as_bytes()));
        let current = hll.registers().clone();
        assert!(previous.iter().zip(current.iter()).all(|(before, after)| before <= after));
        previous = current;
    }
    assert!(hll.registers().iter().any(|register| *register > 0));

    let snapshot = hll.registers().clone();
    for value in 0..100 {
        hll.insert_hash(stable_u64(value.to_string().as_bytes()));
    }
    assert_eq!(hll.registers(), &snapshot);
}

#[test]
fn hyperloglog_registers_do_not_depend_on_arrival_order() {
    let mut forwards = HyperLogLog::new(6);
    let mut backwards = HyperLogLog::new(6);
    for value in 0..50 {
        forwards.insert_hash(stable_u64(value.to_string().as_bytes()));
    }
    for value in (0..50).rev() {
        backwards.insert_hash(stable_u64(value.to_string().as_bytes()));
    }
    assert_eq!(forwards.registers(), backwards.registers());
}

#[test]
fn stable_hash_is_fnv1a_64() {
    assert_eq!(stable_u64(b""), 0xcbf2_9ce4_8422_2325);
    assert_eq!(stable_u64(b"a"), 0xaf63_dc4c_8601_ec8c);
    assert_eq!(stable_hex(b"a"), "af63dc4c8601ec8c");
}

#[test]
fn space_saving_counts_bracket_the_true_occurrences() {
    let stream = ["a", "b", "c", "a", "d", "a", "e", "b", "a", "f", "a"];
    let mut sketch = SpaceSaving::new(3);
    for key in stream {
        sketch.observe(key.to_string());
    }
    let top = sketch.top();
    assert!(top.len() <= 3);
    let total: u64 = top.iter().map(|(_, counter)| counter.count).sum();
    assert_eq!(total, stream.len() as u64);
    for (key, counter) in &top {
        let occurrences = stream.iter().filter(|item| **item == key.as_str()).count() as u64;
        assert!(counter.count - counter.error <= occurrences);
        assert!(occurrences <= counter.count);
    }
    let smallest = top.iter().map(|(_, counter)| counter.count).min().unwrap();
    for key in ["a", "b", "c", "d", "e", "f"] {
        if !top.iter().any(|(kept, _)| kept == key) {
            let occurrences = stream.iter().filter(|item| **item == key).count() as u64;
            assert!(occurrences <= smallest);
        }
    }
}

#[test]
fn space_saving_counts_add_up_to_the_observations() {
    let mut sketch = SpaceSaving::new(3);
    let stream = ["a", "b", "c", "d", "a", "e", "b", "a", "f", "f"];
    for key in stream {
        sketch.observe(key.to_string());
    }
    let total: u64 = sketch.top().iter().map(|(_, counter)| counter.count).sum();
    assert_eq!(total, stream.len() as u64);
}

#[test]
fn priority_sampler_holds_the_smallest_of_many_pushes() {
    let mut sampler = PrioritySampler::new(3);
    let priorities = [50u64, 7, 42, 7, 99, 3, 18, 64, 7];
    for priority in priorities {
        sampler.push(priority, priority);
    }
    assert_eq!(sampler.len(), 3);
    let mut held: Vec<u64> = sampler.ranked().iter().map(|item| item.priority).collect();
    held.sort();
    assert_eq!(held, vec![3, 7, 7]);
}

#[test]
fn stable_hex_is_sixteen_lowercase_digits_of_the_hash() {
    assert_eq!(stable_hex(b""), "cbf29ce484222325");
    for input in [&b"a"[..], b"b", b"profile", b""] {
        let text = stable_hex(input);
        assert_eq!(text.len(), 16);
        assert!(text.chars().all(|c| c.is_ascii_digit() || ('a'..='f').contains(&c)));
        assert_eq!(text, format!("{:016x}", stable_u64(input)));
    }
    assert_ne!(stable_hex(b"a"), stable_hex(b"b"));
}

#[test]
fn priority_sampler_keeps_each_priority_with_its_own_value() {
    let mut sampler = PrioritySampler::new(3);
    for (priority, value) in [(40, "d"), (10, "a"), (30, "c"), (20, "b"), (50, "e")] {
        sampler.push(priority, value);
    }
    let ranked = sampler.ranked();
    let pairs: Vec<(u64, &str)> = ranked.iter().map(|item| (item.priority, item.value)).collect();
    assert_eq!(pairs, vec![(10, "a"), (20, "b"), (30, "c")]);
}
