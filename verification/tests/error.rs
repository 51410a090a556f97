use prover_input::error::AssembleError;

#[test]
fn each_failure_has_its_message() {
    assert_eq!(AssembleError::NotFound.message(), "a required input file does not exist");
    assert_eq!(AssembleError::IoError.message(), "an input file could not be read");
    assert_eq!(AssembleError::MissingField.message(), "Missing secret or nullifier in Prover.toml");
    assert_eq!(AssembleError::ClockError.message(), "the system clock is set before the Unix epoch");
}

#[test]
fn failures_are_told_apart() {
    let all = [
        AssembleError::NotFound,
        AssembleError::IoError,
        AssembleError::MissingField,
        AssembleError::ClockError,
    ];
    for (i, a) in all.iter().enumerate() {
        for (j, b) in all.iter().enumerate() {
            assert_eq!(a == b, i == j);
        }
    }
}
