# checkgit

A terminal viewer of GitHub profiles: `checkgit <username>` shows the
profile, the most starred repositories, yearly contribution statistics and
a contribution heatmap with streaks.

- `src/` is the verified library (Verus): how answer statuses are judged,
  the endpoint addresses (repositories are fetched page by page until a
  page comes back short), the weekday matrix built from the contribution
  calendar, the star total and the three most starred repositories, the
  framing of the avatar (decoded, cut to the centred square and scaled with
  the `image` crate; each picture records its decoded size, its cut and its
  filter), and the heatmap's shades, labels (month names through `chrono`),
  total and streaks.
- `app/` is the program around it: command line, token storage, the HTTP
  requests (`reqwest`, `tokio`), JSON decoding (`serde`), and drawing in the
  terminal (`colored`, `viuer`), and reading the clock (`chrono`).
- `tests/` runs the library on concrete values.
