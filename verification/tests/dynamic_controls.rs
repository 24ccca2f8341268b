use audio_mixer::{DynamicBool, DynamicUsize, Fixed, MaybeDynamic};

#[test]
fn dynamic_bool_it_gets_and_sets_values() {
    let mut dynamic = DynamicBool::new(true);
    assert_eq!(dynamic.get(), true);

    dynamic.set(false);
    assert_eq!(dynamic.get(), false);
}

#[test]
fn dynamic_usize_it_gets_and_sets_values() {
    let mut dynamic = DynamicUsize::new(123);
    assert_eq!(dynamic.get(), 123);

    dynamic.set(456);
    assert_eq!(dynamic.get(), 456);
}

#[test]
fn clones_share_the_cell() {
    let mut one = DynamicUsize::new(1).set_cache_time(0);
    let mut other = one.clone();
    one.set(5);
    assert_eq!(other.get(), 5);
    other.set(6);
    assert_eq!(one.get(), 6);

    let mut flag = DynamicBool::new(false).set_cache_time(0);
    let mut same = flag.clone();
    same.set(true);
    assert_eq!(flag.get(), true);
}

#[test]
fn a_handle_reads_the_cell_again_only_when_its_cache_time_is_over() {
    let mut writer = DynamicUsize::new(1);
    let mut reader = writer.clone();
    assert_eq!(reader.get(), 1);

    writer.set(2);
    for _ in 0..441 {
        assert_eq!(reader.get(), 1);
    }
    assert_eq!(reader.get(), 2);

    let mut reader = writer.clone().set_cache_time(2);
    assert_eq!(reader.get(), 2);
    writer.set(3);
    assert_eq!(reader.get(), 2);
    assert_eq!(reader.get(), 2);
    assert_eq!(reader.get(), 3);
}

#[test]
fn a_flag_is_cached_like_a_count() {
    let mut writer = DynamicBool::new(false);
    let mut reader = writer.clone().set_cache_time(1);
    assert_eq!(reader.get(), false);
    writer.set(true);
    assert_eq!(reader.get(), false);
    assert_eq!(reader.get(), true);
}

#[test]
fn adding_returns_what_the_cell_held_before() {
    let mut count = DynamicUsize::new(10).set_cache_time(0);
    assert_eq!(count.add(5), 10);
    assert_eq!(count.get(), 15);
    assert_eq!(count.add(usize::MAX), 15);
    assert_eq!(count.get(), 14);
    assert_eq!(MaybeDynamic::add(&mut count, 1), 14);
}

#[test]
fn the_default_of_a_cell_is_the_default_of_its_value() {
    assert_eq!(DynamicUsize::default().get(), 0);
    assert_eq!(DynamicBool::default().get(), false);
    assert_eq!(<DynamicUsize as MaybeDynamic<usize>>::default_cache_time(), 441);
    assert_eq!(<bool as MaybeDynamic<bool>>::default_cache_time(), 441);
}

#[test]
fn plain_values_are_controls_that_do_not_change_by_themselves() {
    let mut count = 3_usize;
    assert_eq!(MaybeDynamic::get(&mut count), 3);
    MaybeDynamic::set(&mut count, 7);
    assert_eq!(MaybeDynamic::add(&mut count, 2), 9);
    assert_eq!(count, 9);
    assert_eq!(<usize as MaybeDynamic<usize>>::is_dynamic(), false);
    assert_eq!(<usize as MaybeDynamic<usize>>::is_static(), true);

    let mut flag = true;
    assert_eq!(MaybeDynamic::get(&mut flag), true);
    MaybeDynamic::set(&mut flag, false);
    assert_eq!(flag, false);
    assert_eq!(<bool as MaybeDynamic<bool>>::is_static(), true);
    assert_eq!(<DynamicBool as MaybeDynamic<bool>>::is_dynamic(), true);

    let mut level = Fixed(0.5_f32);
    assert_eq!(level.get(), 0.5);
    level.set(0.25);
    assert_eq!(level.add(0.5), 0.75);
    assert_eq!(level.get(), 0.75);
    assert_eq!(<Fixed<f32> as MaybeDynamic<f32>>::is_static(), true);
}

#[test]
fn a_control_through_the_trait_is_the_control() {
    let mut count = DynamicUsize::new(4);
    assert_eq!(MaybeDynamic::get(&mut count), 4);
    MaybeDynamic::set(&mut count, 8);
    assert_eq!(count.get(), 8);
    let mut count = MaybeDynamic::set_cache_time(count, 0);
    assert_eq!(count.get(), 8);

    let mut flag = MaybeDynamic::set_cache_time(DynamicBool::new(true), 0);
    assert_eq!(MaybeDynamic::get(&mut flag), true);
    MaybeDynamic::set(&mut flag, false);
    assert_eq!(flag.get(), false);
}

#[test]
fn a_read_is_due_on_the_first_call_and_after_every_cache_time() {
    let mut count = DynamicUsize::new(9).set_cache_time(1);
    assert_eq!(count.is_due(), true);
    assert_eq!(count.take(Some(4)), 4);
    assert_eq!(count.is_due(), false);
    assert_eq!(count.take(None), 4);
    assert_eq!(count.is_due(), true);
    assert_eq!(count.num_calls, 2);

    let mut flag = DynamicBool::new(false).set_cache_time(2);
    assert_eq!(flag.is_due(), true);
    assert_eq!(flag.take(Some(true)), true);
    assert_eq!(flag.is_due(), false);
    assert_eq!(flag.take(None), true);
    assert_eq!(flag.is_due(), false);
    assert_eq!(flag.take(None), true);
    assert_eq!(flag.is_due(), true);
}

#[test]
fn the_count_of_calls_wraps_round() {
    let mut count = DynamicUsize::new(1);
    count.num_calls = usize::MAX;
    assert_eq!(count.get(), 1);
    assert_eq!(count.num_calls, 0);
}

#[test]
fn a_handle_that_adds_sees_the_sum_at_once() {
    let mut count = DynamicUsize::new(10);
    assert_eq!(count.get(), 10);
    assert_eq!(count.add(5), 10);
    assert_eq!(count.cache, 15);
    assert_eq!(count.get(), 15);
    assert_eq!(count.add(0), 15);
    assert_eq!(count.get(), 15);
}
