use slideshow::error::ConfigurationError;
use slideshow::naming::frame_file_name;
use slideshow::plan::{check_inputs, create_video_plan};
use slideshow::reuse_queue::CircularImageQueue;
use slideshow::schedule::{build_frame_jobs, Layout};
use slideshow::timing::{Framerate, TimingParameters};

fn timing(track_duration_micros: u64, per_frame_micros: u64) -> TimingParameters {
    TimingParameters { track_duration_micros, per_frame_micros, output_framerate: 30 }
}

#[test]
fn layouts_fix_size_and_images_per_frame() {
    assert_eq!(Layout::Single.images_per_frame(), 1);
    assert_eq!(Layout::StackedTriple.images_per_frame(), 3);
    assert_eq!(Layout::Single.resolution(), (1280, 720));
    assert_eq!(Layout::StackedTriple.resolution(), (1080, 1920));
}

#[test]
fn jobs_are_numbered_in_frame_order() {
    let mut queue = CircularImageQueue::new(4, 8).unwrap();
    let jobs = build_frame_jobs(&mut queue, 10, Layout::StackedTriple);
    assert_eq!(jobs.len(), 10);
    for (index, job) in jobs.iter().enumerate() {
        assert_eq!(job.frame_index, index);
        assert_eq!(job.layout, Layout::StackedTriple);
        assert_eq!(job.image_refs.len(), 3);
        assert!(job.image_refs.iter().all(|&image| image < 4));
    }
}

#[test]
fn jobs_take_the_references_in_the_order_of_the_queue() {
    let mut queue = CircularImageQueue::new(5, 77).unwrap();
    let jobs = build_frame_jobs(&mut queue, 7, Layout::StackedTriple);
    let mut again = CircularImageQueue::new(5, 77).unwrap();
    let stream = again.next_images(21);
    let drawn: Vec<usize> = jobs.iter().flat_map(|job| job.image_refs.clone()).collect();
    assert_eq!(drawn, stream);
    // The queue has moved on by what the jobs took.
    assert_eq!(queue.next_images(4), again.next_images(4));
}

#[test]
fn no_frames_no_jobs() {
    let mut queue = CircularImageQueue::new(5, 77).unwrap();
    assert!(build_frame_jobs(&mut queue, 0, Layout::Single).is_empty());
    assert_eq!(queue.pending_len(), 5);
}

#[test]
fn plan_follows_timing_and_layout() {
    let plan = create_video_plan(7, &timing(10_000_000, 500_000), Layout::Single, 3).unwrap();
    assert_eq!(plan.frame_count, 20);
    assert_eq!(plan.jobs.len(), 20);
    assert_eq!((plan.width, plan.height), (1280, 720));
    assert_eq!(plan.images_per_frame, 1);
    assert_eq!(plan.input_framerate, Framerate { frames: 1, micros: 500_000 });
    assert_eq!(plan.output_framerate, 30);
    let plan = create_video_plan(7, &timing(1_000_001, 100_000), Layout::StackedTriple, 3).unwrap();
    assert_eq!(plan.frame_count, 11);
    assert_eq!((plan.width, plan.height), (1080, 1920));
    assert_eq!(plan.images_per_frame, 3);
    assert!(plan.jobs.iter().all(|job| job.image_refs.len() == 3));
}

#[test]
fn frames_of_a_plan_are_named_without_a_gap() {
    let plan = create_video_plan(3, &timing(10_000_000, 500_000), Layout::Single, 3).unwrap();
    let names: Vec<String> = plan.jobs.iter().map(|job| frame_file_name(job.frame_index)).collect();
    assert_eq!(names.first().unwrap(), "frame_000000.png");
    assert_eq!(names.last().unwrap(), "frame_000019.png");
    for (index, name) in names.iter().enumerate() {
        assert_eq!(*name, format!("frame_{:06}.png", index));
    }
    let mut sorted = names.clone();
    sorted.sort();
    assert_eq!(sorted, names);
}

#[test]
fn same_seed_gives_the_same_plan() {
    let first = create_video_plan(12, &timing(9_000_000, 100_000), Layout::StackedTriple, 2024);
    let second = create_video_plan(12, &timing(9_000_000, 100_000), Layout::StackedTriple, 2024);
    let (first, second) = (first.unwrap(), second.unwrap());
    assert_eq!(first.jobs.len(), second.jobs.len());
    for (a, b) in first.jobs.iter().zip(second.jobs.iter()) {
        assert_eq!(a.frame_index, b.frame_index);
        assert_eq!(a.image_refs, b.image_refs);
        assert_eq!(a.layout, b.layout);
    }
}

#[test]
fn another_seed_gives_another_plan() {
    let plans: Vec<Vec<usize>> = (0..8)
        .map(|seed| {
            let plan = create_video_plan(12, &timing(2_400_000, 100_000), Layout::Single, seed);
            plan.unwrap().jobs.iter().map(|job| job.image_refs[0]).collect()
        })
        .collect();
    let mut distinct = plans.clone();
    distinct.sort();
    distinct.dedup();
    assert!(distinct.len() >= 7);
}

#[test]
fn plan_refuses_bad_input_in_order() {
    let refused = |pool_len, duration, per_frame| {
        create_video_plan(pool_len, &timing(duration, per_frame), Layout::Single, 0).err()
    };
    assert_eq!(refused(0, 10_000_000, 500_000), Some(ConfigurationError::EmptyImagePool));
    assert_eq!(refused(0, 0, 0), Some(ConfigurationError::EmptyImagePool));
    assert_eq!(refused(3, 10_000_000, 0), Some(ConfigurationError::NonPositiveFrameDuration));
    assert_eq!(refused(3, 0, 0), Some(ConfigurationError::NonPositiveFrameDuration));
    assert_eq!(refused(3, 0, 500_000), Some(ConfigurationError::ZeroLengthTrack));
    assert_eq!(refused(3, 1, 500_000), None);
}

#[test]
fn missing_inputs_are_refused_track_first() {
    assert_eq!(check_inputs(true, true), Ok(()));
    assert_eq!(check_inputs(false, true), Err(ConfigurationError::MissingAudioTrack));
    assert_eq!(check_inputs(false, false), Err(ConfigurationError::MissingAudioTrack));
    assert_eq!(check_inputs(true, false), Err(ConfigurationError::MissingImageDirectory));
}
