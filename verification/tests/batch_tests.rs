use prompt_pipeline::batch::BatchRun;
use prompt_pipeline::batch::BATCH_SIZE;
use prompt_pipeline::errors::Error;

fn prompts(n: usize) -> Vec<String> {
    (0..n).map(|i| format!("prompt {}", i)).collect()
}

#[test]
fn batch_size_is_twenty() {
    assert_eq!(BATCH_SIZE, 20);
}

#[test]
fn chunking_is_transparent_for_45_prompts() {
    // feeding the same flat responses through the 20/20/5 chunking yields
    // exactly one trimmed result per prompt, in order
    let n = 45;
    let mut run = BatchRun::new(prompts(n));
    let mut chunk_sizes = Vec::new();
    let mut served = 0usize;
    while let Some(chunk) = run.next_chunk() {
        chunk_sizes.push(chunk.len());
        let texts: Vec<String> = chunk
            .iter()
            .enumerate()
            .map(|(k, _)| format!("  answer {} \t", served + k))
            .collect();
        served += chunk.len();
        run.push_chunk(texts).unwrap();
    }
    assert_eq!(chunk_sizes, vec![20, 20, 5]);
    let results = run.into_results().unwrap();
    assert_eq!(results.len(), n);
    for (i, r) in results.iter().enumerate() {
        assert_eq!(r, &format!("answer {}", i));
    }
}

#[test]
fn results_are_trimmed() {
    let mut run = BatchRun::new(vec!["p".to_string()]);
    let chunk = run.next_chunk().unwrap();
    assert_eq!(chunk, vec!["p".to_string()]);
    run.push_chunk(vec!["\n  text  \t".to_string()]).unwrap();
    assert_eq!(run.into_results().unwrap(), vec!["text".to_string()]);
}

#[test]
fn misaligned_chunk_is_refused() {
    let mut run = BatchRun::new(prompts(3));
    let err = run.push_chunk(vec!["a".to_string()]).unwrap_err();
    assert_eq!(err, Error::Alignment { expected: 3, got: 1 });
    // the run is unchanged and still accepts the right number
    run.push_chunk(vec!["a".into(), "b".into(), "c".into()]).unwrap();
    assert_eq!(run.into_results().unwrap().len(), 3);
}

#[test]
fn failing_second_of_three_chunks_aborts_the_batch() {
    // 45 prompts make 3 chunks; the provider answers the 1st, fails on the
    // 2nd, and the caller stops: the incomplete run surrenders nothing and
    // no partial merge can happen
    let n = 45;
    let mut run = BatchRun::new(prompts(n));
    let mut records: Vec<prompt_pipeline::value::Record> = (0..n)
        .map(|_| prompt_pipeline::value::Record { fields: Vec::new() })
        .collect();

    let first = run.next_chunk().unwrap();
    run.push_chunk(first.iter().map(|_| "ok".to_string()).collect())
        .unwrap();
    let _second = run.next_chunk().unwrap();
    // the provider call for the second chunk fails: nothing is fed back
    let err = run.into_results().unwrap_err();
    assert_eq!(err, Error::IncompleteBatch { expected: 45, got: 20 });

    // and a partial completion list cannot be merged either
    let partial: Vec<String> = (0..20).map(|_| "ok".to_string()).collect();
    let merge_err =
        prompt_pipeline::merge::merge_completions(&mut records, "body", &partial).unwrap_err();
    assert_eq!(merge_err, Error::Alignment { expected: 45, got: 20 });
    assert!(records.iter().all(|r| r.fields.is_empty()));
}

#[test]
fn empty_prompt_list_completes_immediately() {
    let run = BatchRun::new(Vec::new());
    assert!(run.next_chunk().is_none());
    assert_eq!(run.into_results().unwrap(), Vec::<String>::new());
}
