# rdkafka_admin

The logic of a Kafka admin client, verified with Verus: what an admin client
hands to librdkafka for each request (topics to create or delete, partitions to
add, configurations to describe or alter, request options) and how it reads
librdkafka's answers back into per-topic and per-resource results.

Layout:

- `src/text.rs` – decimal notation, `i32` parsing as `str::parse` does it, the
  C-string rule (no zero byte), and the "first failed check" helpers.
- `src/error.rs` – librdkafka error codes, the client's error type, and the
  interpretation of librdkafka's answer codes.
- `src/options.rs` – timeouts and `AdminOptions` with the settings they give a
  request.
- `src/topic.rs` – `NewTopic`, `NewPartitions`, deleted topic names, and the
  per-topic answers.
- `src/config.rs` – resource specifiers, configuration entries and resources,
  `AlterConfig`, and the answers to DescribeConfigs and AlterConfigs.
- `src/client.rs` – the decision of the thread that collects answers.
- `app/lib.rs` – the unverified shell: librdkafka calls, the polling thread and
  the futures that deliver answers.
- `tests/` – tests on concrete values.
