use red_alert::recognition::{
    decoder_samples, Recognition, RecognitionResult, RecognitionResultType, RecognitionState,
    RecognitionStep, BASE_HZ, CAPTURE_HZ,
};
use red_alert::voice::Voice;

#[test]
fn identical_partials_are_emitted_once() {
    let mut recognition = Recognition::new();
    let first = recognition.accept(false, "код".to_string());
    let second = recognition.accept(false, "код".to_string());
    assert_eq!(
        first,
        RecognitionState::Result(RecognitionResult {
            result_type: RecognitionResultType::Partial,
            text: "код".to_string(),
        })
    );
    assert_eq!(second, RecognitionState::RepeatedResult);
}

#[test]
fn empty_answers_are_not_results() {
    let mut recognition = Recognition::new();
    assert_eq!(recognition.accept(true, String::new()), RecognitionState::EmptyResult);
    assert_eq!(recognition.accept(false, String::new()), RecognitionState::RepeatedResult);
    assert_eq!(recognition.accept(false, "a".to_string()) != RecognitionState::EmptyResult, true);
    assert_eq!(recognition.accept(false, String::new()), RecognitionState::EmptyResult);
}

#[test]
fn engine_waits_then_finishes() {
    let mut recognition = Recognition::new();
    let mut voice = Voice::new(42);
    assert_eq!(recognition.step(&voice), RecognitionStep::WaitingChunk);
    voice.append(vec![0i16; 1920]);
    match recognition.step(&voice) {
        RecognitionStep::Samples(samples) => assert_eq!(samples.len(), 320),
        other => panic!("unexpected step {:?}", other),
    }
    assert_eq!(recognition.step(&voice), RecognitionStep::WaitingChunk);
    voice.mark_completed();
    assert_eq!(recognition.step(&voice), RecognitionStep::Finished);
}

#[test]
fn odd_chunk_is_refused() {
    let mut recognition = Recognition::new();
    let mut voice = Voice::new(1);
    voice.append(vec![0i16; 3]);
    assert_eq!(recognition.step(&voice), RecognitionStep::BadChunk);
    assert_eq!(recognition.step(&voice), RecognitionStep::BadChunk);
}

#[test]
fn chunks_of_any_even_length_are_converted() {
    assert_eq!(decoder_samples(&Vec::new()), Some(Vec::new()));
    assert_eq!(decoder_samples(&vec![5i16; 2]).map(|samples| samples.len()), Some(1));
    assert_eq!(decoder_samples(&vec![5i16; 4]).map(|samples| samples.len()), Some(1));
    assert_eq!(decoder_samples(&vec![5i16; 6]).map(|samples| samples.len()), Some(1));
    assert_eq!(decoder_samples(&vec![5i16; 8]).map(|samples| samples.len()), Some(2));
    assert_eq!(decoder_samples(&vec![5i16; 7]), None);
    let once = decoder_samples(&vec![1000i16; 960]);
    let twice = decoder_samples(&vec![1000i16; 960]);
    assert_eq!(once.is_some(), true);
    assert_eq!(once, twice);
    assert_eq!(CAPTURE_HZ, 48_000);
    assert_eq!(BASE_HZ, 16_000);
}

#[test]
fn two_segments_with_one_partial_text_emit_one_result() {
    let mut recognition = Recognition::new();
    let mut voice = Voice::new(5);
    voice.append(vec![1i16; 4]);
    voice.append(vec![2i16; 4]);
    assert_eq!(
        recognition.next(&voice, false, "код".to_string()),
        Some(RecognitionState::Result(RecognitionResult {
            result_type: RecognitionResultType::Partial,
            text: "код".to_string(),
        }))
    );
    assert_eq!(
        recognition.next(&voice, false, "код".to_string()),
        Some(RecognitionState::RepeatedResult)
    );
    assert_eq!(
        recognition.next(&voice, true, "не спрошено".to_string()),
        Some(RecognitionState::WaitingChunk)
    );
    voice.append(vec![3i16; 5]);
    assert_eq!(recognition.next(&voice, true, "код красный".to_string()), None);
    let mut other = Recognition::new();
    let mut done = Voice::new(6);
    done.append(vec![3i16; 2]);
    done.mark_completed();
    assert_eq!(
        other.next(&done, true, "код красный".to_string()),
        Some(RecognitionState::Result(RecognitionResult {
            result_type: RecognitionResultType::Final,
            text: "код красный".to_string(),
        }))
    );
    assert_eq!(other.next(&done, true, "ещё".to_string()), None);
}
