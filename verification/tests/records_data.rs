use pollcast::records::Credential;
use pollcast::records::CreatePollRequest;
use pollcast::records::PollOptions;
use pollcast::records::VoteRequest;
use pollcast::records::VoteUpdate;

#[test]
fn credential_new_keeps_its_fields() {
    let c = Credential::new(1, 7, vec![1, 2, 3], vec![4, 5], 9);
    assert_eq!(c.id, 1);
    assert_eq!(c.user_id, 7);
    assert_eq!(c.credential_id, vec![1, 2, 3]);
    assert_eq!(c.public_key, vec![4, 5]);
    assert_eq!(c.counter, 9);
}

#[test]
fn records_hold_plain_values() {
    let o = PollOptions { option_text: "Yes".to_string(), votes: 3 };
    assert_eq!(o.option_text, "Yes");
    assert_eq!(o.votes, 3);
    let q = CreatePollRequest {
        title: "Lunch".to_string(),
        creator: "ada".to_string(),
        options: vec!["Yes".to_string(), "No".to_string()],
    };
    assert_eq!(q.options.len(), 2);
    let v = VoteRequest { username: "ada".to_string(), option_text: "Yes".to_string() };
    assert_eq!(v.username, "ada");
    let u = VoteUpdate { poll_id: 42, option_id: 2, votes: 3 };
    assert_eq!(u.poll_id, 42);
    assert_eq!(u.option_id, 2);
    assert_eq!(u.votes, 3);
}
