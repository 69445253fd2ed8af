use net_client::service::Service;

#[test]
fn test_validate_options_own_id_as_recipient() {
    let node_id: u8 = 1;
    let neighbors = vec![node_id];
    let result = Service::validate_options(&neighbors, node_id);
    assert!(result.is_err());
    assert_eq!(result.unwrap_err(), "Own ID is used as a recipient.");
}

#[test]
fn test_validate_options_too_many_neighbors() {
    let node_id: u8 = 1;
    let neighbors = vec![2, 3, 4];
    let result = Service::validate_options(&neighbors, node_id);
    assert!(result.is_err());
    assert_eq!(
        result.unwrap_err(),
        "There are 3 drones connected when the there must be 1-2 connected drones."
    );
}

#[test]
fn test_validate_options_no_neighbors() {
    let node_id: u8 = 1;
    let neighbors: Vec<u8> = vec![];
    let result = Service::validate_options(&neighbors, node_id);
    assert!(result.is_err());
    assert_eq!(
        result.unwrap_err(),
        "There are 0 drones connected when the there must be 1-2 connected drones."
    );
}

#[test]
fn test_validate_options_valid_neighbors() {
    let node_id: u8 = 1;
    let mut neighbors = vec![2];
    let result = Service::validate_options(&neighbors, node_id);
    assert!(result.is_ok());
    neighbors.push(3);
    let result = Service::validate_options(&neighbors, node_id);
    assert!(result.is_ok());
}

#[test]
fn new_service_checks_its_neighbours() {
    assert!(Service::new(1, &vec![2, 3]).is_ok());
    assert_eq!(
        Service::new(1, &vec![2, 3, 4, 5, 6, 7, 8, 9, 10, 11, 12]).err().unwrap(),
        "There are 11 drones connected when the there must be 1-2 connected drones."
    );
    assert_eq!(
        Service::new(4, &vec![4]).err().unwrap(),
        "Own ID is used as a recipient."
    );
}
