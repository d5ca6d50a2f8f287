use sybl::dcl::{DatasetPair, JobQueue};
use sybl::models::jobs::{Job, JobConfiguration};
use sybl::models::ObjectId;

fn create_job_element() -> (ObjectId, DatasetPair, Job) {
    (
        ObjectId::new(),
        DatasetPair::default(),
        Job::new(JobConfiguration::default()),
    )
}

#[test]
fn jobs_can_be_added() {
    let mut queue = JobQueue::new();

    queue.push(create_job_element());

    assert_eq!(queue.len(), 1);
}

#[test]
fn filter_finds_correct_job_indices() {
    let mut queue = JobQueue::new();
    let mut element = create_job_element();

    // Add an element with cluster_size = 2
    element.2.config.cluster_size = 2;
    queue.push(element.clone());

    // Add an element with cluster_size = 3
    element.2.config.cluster_size = 3;
    queue.push(element.clone());

    // Add an element with cluster_size = 1
    element.2.config.cluster_size = 1;
    queue.push(element.clone());

    // Set the number of active nodes to 2
    let active = 2;

    assert_eq!(queue.filter(active), vec![0, 2]);
}

#[test]
fn sometimes_no_jobs_can_be_completed() {
    let mut queue = JobQueue::new();
    let mut element = create_job_element();

    // Add an element with cluster_size = 4
    element.2.config.cluster_size = 4;
    queue.push(element.clone());

    // Add an element with cluster_size = 3
    element.2.config.cluster_size = 3;
    queue.push(element.clone());

    // Add an element with cluster_size = 2
    element.2.config.cluster_size = 2;
    queue.push(element.clone());

    // Set the number of active nodes to 1
    let active = 1;

    assert_eq!(queue.filter(active), Vec::<usize>::new());
}

#[test]
fn correct_indices_are_removed() {
    let mut queue = JobQueue::new();
    let mut element = create_job_element();

    // Add an element with cluster_size = 4
    element.2.config.cluster_size = 4;
    queue.push(element.clone());

    // Add an element with cluster_size = 3
    element.2.config.cluster_size = 3;
    queue.push(element.clone());

    // Remove the second job
    let removed = queue.remove(1);

    assert_eq!(removed, element);
}

#[test]
fn jobs_can_be_inserted_at_specific_indices() {
    let mut queue = JobQueue::new();
    let mut element = create_job_element();

    // Add an element with cluster_size = 4
    element.2.config.cluster_size = 4;
    queue.push(element.clone());

    // Add an element with cluster_size = 3
    element.2.config.cluster_size = 3;
    queue.push(element.clone());

    // Insert an element inbetween them with cluster_size = 5
    element.2.config.cluster_size = 5;
    queue.insert(1, element.clone());

    // Check the second element
    assert_eq!(*queue.get(1).unwrap(), element);
}

#[test]
fn removing_then_reinserting_restores_the_queue() {
    let mut queue = JobQueue::new();
    let mut element = create_job_element();
    for size in [1, 2, 3] {
        element.2.config.cluster_size = size;
        queue.push(element.clone());
    }
    let removed = queue.remove(1);
    assert_eq!(removed.2.config.cluster_size, 2);
    assert_eq!(queue.len(), 2);
    queue.insert(1, removed);
    let sizes: Vec<i32> = (0..3).map(|i| queue.get(i).unwrap().2.config.cluster_size).collect();
    assert_eq!(sizes, vec![1, 2, 3]);
    assert!(queue.get(3).is_none());
}
